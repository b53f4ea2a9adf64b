//! The flow checker: per-column-family statistics, and the handlers of the
//! engine's flush and compaction events that feed them and update the
//! throttle state (see `throttle`) and the discard ratio (see `ratio`).
//!
//! Times are milliseconds of a monotonic clock, and engine metrics arrive
//! as plain numbers read when the event came.

use crate::log2::{log2_fixed, log2_fixed_of, LOG2_ONE};
use crate::ratio::{
    discard_ratio_after, lemma_discard_ratio_bounds, next_discard_ratio, raw_ratio_den, raw_ratio_num,
    RATIO_SCALE,
};
use crate::smoother::{
    avg_above, avg_below, max_sample, pushed, recent_of, sum_samples, swept, trend_of, Smoother,
    Trend, SLOPE_BOUND,
};
use crate::throttle::{
    applied, decreased, increased, lemma_steady_deficit_never_lowers, lemma_throttle_cf_hysteresis, l0_decision, l0_decr_outcome, l0_incr_outcome,
    memtable_outcome, midpoint_flow, pid_correction, seed_speed,
    speed_in_range, tick_outcome, Throttle, LIMIT_DOWN_PERCENT, LIMIT_UP_PERCENT,
    MAX_THROTTLE_SPEED, MEMTABLE_SPEED_STEP, MIN_THROTTLE_SPEED, TARGET_REFRESH_MARGIN,
    THROTTLE_CF_MARGIN,
};
use vstd::prelude::*;

verus! {

/// Consecutive idle ticks after which the idle release path runs.
pub const SPARE_TICKS_THRESHOLD: u64 = 10;

/// Flush bytes are turned into a flow once they cover more than this span.
pub const FLOW_SAMPLE_MS: u64 = 5000;

/// Recognised options of the flow controller.
pub struct FlowControlConfig {
    pub enable: bool,
    pub memtables_threshold: u64,
    pub l0_files_threshold: u64,
    pub soft_pending_compaction_bytes_limit: u64,
    pub hard_pending_compaction_bytes_limit: u64,
}

/// Bytes per second for `bytes` over `elapsed_ms` milliseconds, rounded
/// down and capped at `u64::MAX`; a zero span counts as an unbounded flow.
pub open spec fn flow_rate(bytes: u64, elapsed_ms: u64) -> u64 {
    if elapsed_ms == 0 {
        u64::MAX
    } else if bytes * 1000 / (elapsed_ms as int) > u64::MAX {
        u64::MAX
    } else {
        (bytes * 1000 / (elapsed_ms as int)) as u64
    }
}

/// Milliseconds from `from` to `now`, 0 if `now` is earlier.
pub open spec fn elapsed_ms(from: u64, now: u64) -> u64 {
    if now > from {
        (now - from) as u64
    } else {
        0
    }
}

/// `a + b`, capped at `u64::MAX`.
pub open spec fn sat_add(a: u64, b: u64) -> u64 {
    if a + b > u64::MAX {
        u64::MAX
    } else {
        (a + b) as u64
    }
}

fn flow_rate_of(bytes: u64, elapsed: u64) -> (r: u64)
    ensures
        r == flow_rate(bytes, elapsed),
{
    if elapsed == 0 {
        return u64::MAX;
    }
    let q: u128 = bytes as u128 * 1000 / elapsed as u128;
    if q > u64::MAX as u128 {
        u64::MAX
    } else {
        q as u64
    }
}

/// The pending-bytes start-up latch lets a sample through: the latch is
/// already clear, the sample is below the soft limit, or the window rises.
pub open spec fn pending_gate_open(on_start: bool, num: int, soft: int, window: Seq<(u64, u64)>) -> bool {
    !on_start || num < soft || trend_of(window, 2 * LOG2_ONE) == Trend::Increasing
}

/// No CF's latest pending-bytes sample exceeds `num`.
pub open spec fn is_worst_pending(cfs: Seq<CfFlowChecker>, num: int) -> bool {
    forall|i: int| 0 <= i < cfs.len() ==> !(num < recent_of(#[trigger] cfs[i].long_term_pending_bytes@))
}

/// The memtable start-up latch lets a sample through: the latch is already
/// clear, the count is below the threshold, or the window rises.
pub open spec fn memtable_gate_open(on_start: bool, num: u64, threshold: u64, window: Seq<(u64, u64)>) -> bool {
    !on_start || num < threshold || trend_of(window, 2) == Trend::Increasing
}

/// No CF's latest memtable count exceeds `num`.
pub open spec fn is_worst_memtable(cfs: Seq<CfFlowChecker>, num: u64) -> bool {
    forall|i: int| 0 <= i < cfs.len() ==> !(num < recent_of(#[trigger] cfs[i].last_num_memtables@))
}

/// The L0 start-up latch lets a sample through: the latch is already clear,
/// the count is below the threshold, or the post-compaction counts rise.
pub open spec fn l0_gate_open(on_start: bool, num: u64, threshold: u64, window: Seq<(u64, u64)>) -> bool {
    !on_start || num < threshold || trend_of(window, 2) == Trend::Increasing
}

impl CfFlowChecker {
    /// The memtable statistics of `a` and `b` agree.
    pub open spec fn same_memtable_stats(a: &Self, b: &Self) -> bool {
        &&& a.last_num_memtables == b.last_num_memtables
        &&& a.memtable_debt == b.memtable_debt
        &&& a.init_speed == b.init_speed
        &&& a.on_start_memtable == b.on_start_memtable
    }

    /// The L0 statistics of `a` and `b` agree.
    pub open spec fn same_l0_stats(a: &Self, b: &Self) -> bool {
        &&& a.last_num_l0_files == b.last_num_l0_files
        &&& a.last_num_l0_files_from_flush == b.last_num_l0_files_from_flush
        &&& a.long_term_num_l0_files == b.long_term_num_l0_files
        &&& a.last_flush_bytes_time == b.last_flush_bytes_time
        &&& a.last_flush_bytes == b.last_flush_bytes
        &&& a.short_term_l0_production_flow == b.short_term_l0_production_flow
        &&& a.long_term_l0_production_flow == b.long_term_l0_production_flow
        &&& a.last_l0_bytes == b.last_l0_bytes
        &&& a.last_l0_bytes_time == b.last_l0_bytes_time
        &&& a.short_term_l0_consumption_flow == b.short_term_l0_consumption_flow
        &&& a.on_start_l0_files == b.on_start_l0_files
    }

    /// The pending-bytes statistics of `a` and `b` agree.
    pub open spec fn same_pending_stats(a: &Self, b: &Self) -> bool {
        &&& a.long_term_pending_bytes == b.long_term_pending_bytes
        &&& a.on_start_pending_bytes == b.on_start_pending_bytes
    }
}

/// `(avg(s) + target) / 2` of a window (see `midpoint_flow`).
fn midpoint_flow_of(s: &Smoother<3>, target: u64) -> (r: u64)
    requires
        s.wf(),
        s@.len() > 0,
    ensures
        r == midpoint_flow(s@, target),
{
    proof {
        s.lemma_wf();
        crate::smoother::lemma_sum_bound(s@);
    }
    let n = s.len() as u128;
    let total = s.get_total();
    proof {
        assert((total + target * n) / (2 * n) <= 0xffff_ffff_ffff_ffff) by (nonlinear_arith)
            requires
                total <= n * 0xffff_ffff_ffff_ffff,
                target <= 0xffff_ffff_ffff_ffff,
                n >= 1,
                total >= 0,
        {
            assert(total + target * n <= 2 * n * 0xffff_ffff_ffff_ffff) by (nonlinear_arith)
                requires total <= n * 0xffff_ffff_ffff_ffff, target <= 0xffff_ffff_ffff_ffff, n >= 1;
        }
    }
    ((total + target as u128 * n) / (2 * n)) as u64
}

/// The clamped PID correction (see `pid_correction`).
fn pid_correction_of(target: u64, s: &Smoother<10>, speed: u64) -> (r: u64)
    requires
        s.wf(),
    ensures
        r == pid_correction(target, s@, speed),
{
    proof {
        s.lemma_wf();
        crate::smoother::lemma_sum_bound(s@);
    }
    let n = s.len();
    let slope = s.slope();
    let (total, len): (i128, i128) = if n == 0 { (0, 1) } else { (s.get_total() as i128, n as i128) };
    proof {
        assert(5 * slope * len <= 5 * SLOPE_BOUND * 10 && 5 * slope * len >= -5 * SLOPE_BOUND * 10) by (nonlinear_arith)
            requires -SLOPE_BOUND <= slope <= SLOPE_BOUND, 1 <= len <= 10;
        assert(target * len <= 0xffff_ffff_ffff_ffff * 10) by (nonlinear_arith)
            requires target <= 0xffff_ffff_ffff_ffff, 1 <= len <= 10;
    }
    let numer: i128 = 3 * (target as i128 * len - total - 5 * slope * len);
    let den: i128 = 20 * len;
    if numer < 0 {
        proof {
            assert((numer as int) / (den as int) < 0) by (nonlinear_arith)
                requires numer < 0, den >= 1;
        }
        return 0;
    }
    let q: i128 = numer / den;
    if q > speed as i128 {
        speed
    } else {
        q as u64
    }
}

/// Statistics and start-up latches of one column family.
pub struct CfFlowChecker {
    /// Immutable memtable counts, one per flush.
    pub last_num_memtables: Smoother<20>,
    pub memtable_debt: i64,
    pub init_speed: bool,
    /// L0 file count right after the last flush or L0 compaction.
    pub last_num_l0_files: u64,
    /// L0 file count right after the last flush.
    pub last_num_l0_files_from_flush: u64,
    /// L0 file counts right after L0 compactions.
    pub long_term_num_l0_files: Smoother<20>,
    pub last_flush_bytes_time: u64,
    pub last_flush_bytes: u64,
    /// Flush flows (bytes per second).
    pub short_term_l0_production_flow: Smoother<10>,
    pub long_term_l0_production_flow: Smoother<60>,
    pub last_l0_bytes: u64,
    pub last_l0_bytes_time: u64,
    /// L0 compaction flows (bytes per second).
    pub short_term_l0_consumption_flow: Smoother<3>,
    /// Fixed-point logarithms of pending-compaction bytes.
    pub long_term_pending_bytes: Smoother<60>,
    pub on_start_memtable: bool,
    pub on_start_l0_files: bool,
    pub on_start_pending_bytes: bool,
}

impl CfFlowChecker {
    pub open spec fn wf(&self) -> bool {
        &&& self.last_num_memtables.wf()
        &&& self.long_term_num_l0_files.wf()
        &&& self.short_term_l0_production_flow.wf()
        &&& self.long_term_l0_production_flow.wf()
        &&& self.short_term_l0_consumption_flow.wf()
        &&& self.long_term_pending_bytes.wf()
    }

    /// Empty statistics at time `now`, with all start-up latches set.
    pub fn new(now: u64) -> (r: Self)
        ensures
            r.wf(),
            r.on_start_memtable && r.on_start_l0_files && r.on_start_pending_bytes,
            r.last_num_memtables@.len() == 0,
            r.long_term_num_l0_files@.len() == 0,
            r.short_term_l0_production_flow@.len() == 0,
            r.long_term_l0_production_flow@.len() == 0,
            r.short_term_l0_consumption_flow@.len() == 0,
            r.long_term_pending_bytes@.len() == 0,
            r.last_num_l0_files == 0 && r.last_num_l0_files_from_flush == 0,
            r.last_flush_bytes == 0 && r.last_l0_bytes == 0 && r.memtable_debt == 0,
            r.last_flush_bytes_time == now && r.last_l0_bytes_time == now,
            !r.init_speed,
    {
        CfFlowChecker {
            last_num_memtables: Smoother::new(),
            memtable_debt: 0,
            init_speed: false,
            last_num_l0_files: 0,
            last_num_l0_files_from_flush: 0,
            long_term_num_l0_files: Smoother::new(),
            last_flush_bytes_time: now,
            last_flush_bytes: 0,
            short_term_l0_production_flow: Smoother::new(),
            long_term_l0_production_flow: Smoother::new(),
            last_l0_bytes: 0,
            last_l0_bytes_time: now,
            short_term_l0_consumption_flow: Smoother::new(),
            long_term_pending_bytes: Smoother::new(),
            on_start_memtable: true,
            on_start_l0_files: true,
            on_start_pending_bytes: true,
        }
    }
}

/// The controller's state: thresholds, per-CF statistics, the throttle
/// state, the discard ratio and the recorded foreground write flow.
pub struct FlowChecker {
    pub soft_pending_compaction_bytes_limit: u64,
    pub hard_pending_compaction_bytes_limit: u64,
    pub memtables_threshold: u64,
    pub l0_files_threshold: u64,
    pub cf_names: Vec<String>,
    /// Statistics of `cf_names[i]` at index `i`.
    pub cf_checkers: Vec<CfFlowChecker>,
    pub throttle: Throttle,
    /// Probability of dropping a write, scaled by `RATIO_SCALE`.
    pub discard_ratio: u32,
    /// Foreground write flows (bytes per second), one per idle tick.
    pub write_flow_recorder: Smoother<30>,
    pub last_record_time: u64,
}

impl FlowChecker {
    /// `a` and `b` have the same thresholds, limits and column families.
    pub open spec fn same_config(a: &Self, b: &Self) -> bool {
        &&& a.soft_pending_compaction_bytes_limit == b.soft_pending_compaction_bytes_limit
        &&& a.hard_pending_compaction_bytes_limit == b.hard_pending_compaction_bytes_limit
        &&& a.memtables_threshold == b.memtables_threshold
        &&& a.l0_files_threshold == b.l0_files_threshold
        &&& a.cf_names == b.cf_names
    }

    /// Well-formedness: one statistics record per CF, well-formed windows, a
    /// throttle CF that names a CF, and a speed limit that is either
    /// unlimited or within `[MIN_THROTTLE_SPEED, MAX_THROTTLE_SPEED]`.
    pub open spec fn wf(&self) -> bool {
        &&& self.cf_checkers@.len() == self.cf_names@.len()
        &&& distinct_names(self.cf_names@)
        &&& forall|i: int| 0 <= i < self.cf_checkers@.len() ==> #[trigger] self.cf_checkers@[i].wf()
        &&& self.write_flow_recorder.wf()
        &&& speed_in_range(self.throttle.speed_limit)
        &&& match self.throttle.throttle_cf {
            Some(i) => i < self.cf_checkers@.len(),
            None => true,
        }
    }

    /// A checker for the CFs `cf_names` (each name once, however often it is
    /// given) at time `now`: unthrottled, with a zero discard ratio and empty
    /// statistics.
    pub fn new(config: &FlowControlConfig, cf_names: Vec<String>, now: u64) -> (r: Self)
        ensures
            r.wf(),
            forall|k: int| 0 <= k < cf_names@.len() ==> contains_name(r.cf_names@, (#[trigger] cf_names@[k])@),
            forall|j: int| 0 <= j < r.cf_names@.len() ==> contains_name(cf_names@, (#[trigger] r.cf_names@[j])@),
            r.soft_pending_compaction_bytes_limit == config.soft_pending_compaction_bytes_limit,
            r.hard_pending_compaction_bytes_limit == config.hard_pending_compaction_bytes_limit,
            r.memtables_threshold == config.memtables_threshold,
            r.l0_files_threshold == config.l0_files_threshold,
            r.throttle == (Throttle {
                speed_limit: None,
                throttle_cf: None,
                l0_target_flow: 0,
                target_anchor: None,
            }),
            r.discard_ratio == 0,
            r.write_flow_recorder@.len() == 0,
            r.last_record_time == now,
            forall|i: int| 0 <= i < r.cf_checkers@.len() ==> {
                let c = #[trigger] r.cf_checkers@[i];
                &&& c.on_start_memtable && c.on_start_l0_files && c.on_start_pending_bytes
                &&& c.last_num_memtables@.len() == 0 && c.long_term_num_l0_files@.len() == 0
                &&& c.long_term_pending_bytes@.len() == 0
            },
    {
        let mut names: Vec<String> = Vec::new();
        let mut k: usize = 0;
        while k < cf_names.len()
            invariant
                k <= cf_names@.len(),
                distinct_names(names@),
                forall|q: int| 0 <= q < k ==> contains_name(names@, (#[trigger] cf_names@[q])@),
                forall|j: int| 0 <= j < names@.len() ==> contains_name(cf_names@, (#[trigger] names@[j])@),
            decreases cf_names@.len() - k,
        {
            let name = &cf_names[k];
            if position_of(&names, name).is_none() {
                let ghost before = names@;
                names.push(name.clone());
                proof {
                    assert forall|j: int| 0 <= j < names@.len() implies contains_name(cf_names@, (#[trigger] names@[j])@) by {
                        if j < before.len() {
                            assert(names@[j] == before[j]);
                        } else {
                            assert(cf_names@[k as int]@ == names@[j]@);
                        }
                    }
                    assert forall|q: int| 0 <= q <= k implies contains_name(names@, (#[trigger] cf_names@[q])@) by {
                        if q < k {
                            let j = choose|j: int| 0 <= j < before.len() && before[j]@ == cf_names@[q]@;
                            assert(names@[j] == before[j]);
                        } else {
                            assert(names@[before.len() as int]@ == cf_names@[q]@);
                        }
                    }
                }
            } else {
                proof {
                    assert(contains_name(names@, cf_names@[k as int]@));
                }
            }
            k = k + 1;
        }
        let n = names.len();
        let mut cf_checkers: Vec<CfFlowChecker> = Vec::new();
        let mut i: usize = 0;
        while i < n
            invariant
                i <= n,
                cf_checkers@.len() == i,
                forall|j: int| 0 <= j < i ==> {
                    let c = #[trigger] cf_checkers@[j];
                    &&& c.wf()
                    &&& c.on_start_memtable && c.on_start_l0_files && c.on_start_pending_bytes
                    &&& c.last_num_memtables@.len() == 0 && c.long_term_num_l0_files@.len() == 0
                    &&& c.long_term_pending_bytes@.len() == 0
                },
            decreases n - i,
        {
            cf_checkers.push(CfFlowChecker::new(now));
            i = i + 1;
        }
        let r = FlowChecker {
            soft_pending_compaction_bytes_limit: config.soft_pending_compaction_bytes_limit,
            hard_pending_compaction_bytes_limit: config.hard_pending_compaction_bytes_limit,
            memtables_threshold: config.memtables_threshold,
            l0_files_threshold: config.l0_files_threshold,
            cf_names: names,
            cf_checkers,
            throttle: Throttle {
                speed_limit: None,
                throttle_cf: None,
                l0_target_flow: 0,
                target_anchor: None,
            },
            discard_ratio: 0,
            write_flow_recorder: Smoother::new(),
            last_record_time: now,
        };
        r
    }

    /// Re-samples the pending-compaction bytes of CF `cf` (`pending_bytes`,
    /// read at `now`) and, when this CF has the largest backlog and its
    /// start-up latch allows it, recomputes the discard ratio.
    pub fn on_pending_compaction_bytes_change(&mut self, cf: usize, pending_bytes: u64, now: u64)
        requires
            old(self).wf(),
            cf < old(self).cf_checkers@.len(),
        ensures
            final(self).wf(),
            pending_change_post(*old(self), *final(self), cf as int, pending_bytes, now),
    {
        let hard = log2_fixed(self.hard_pending_compaction_bytes_limit);
        let soft = log2_fixed(self.soft_pending_compaction_bytes_limit);
        let num = log2_fixed(pending_bytes);
        let ghost old_cfs = self.cf_checkers@;
        assert(self.cf_checkers@[cf as int].wf());
        let c = &mut self.cf_checkers[cf];
        c.long_term_pending_bytes.observe(num, now);
        if c.on_start_pending_bytes {
            if num < soft || c.long_term_pending_bytes.trend_with_margin(2 * LOG2_ONE) == Trend::Increasing {
                c.on_start_pending_bytes = false;
            } else {
                proof {
                    assert(self.cf_checkers@[cf as int].wf());
                    assert forall|i: int| 0 <= i < self.cf_checkers@.len() implies #[trigger] self.cf_checkers@[i].wf() by {
                        if i != cf {
                            assert(self.cf_checkers@[i] == old_cfs[i]);
                        }
                    }
                }
                return;
            }
        }
        proof {
            lemma_update_wf(old_cfs, self.cf_checkers@, cf as int);
        }
        if !self.is_worst_pending(num) {
            return;
        }
        let window = &self.cf_checkers[cf].long_term_pending_bytes;
        proof {
            window.lemma_wf();
            crate::smoother::lemma_sum_bound(window@);
        }
        self.discard_ratio = discard_ratio_after(
            self.discard_ratio,
            window.get_total(),
            window.len(),
            soft,
            hard,
        );
    }

    fn is_worst_pending(&self, num: u64) -> (r: bool)
        ensures
            r == is_worst_pending(self.cf_checkers@, num as int),
    {
        let n = self.cf_checkers.len();
        let mut i: usize = 0;
        while i < n
            invariant
                n == self.cf_checkers@.len(),
                i <= n,
                forall|j: int| 0 <= j < i ==> !(num < recent_of(#[trigger] self.cf_checkers@[j].long_term_pending_bytes@)),
            decreases n - i,
        {
            if num < self.cf_checkers[i].long_term_pending_bytes.get_recent() {
                return false;
            }
            i = i + 1;
        }
        true
    }

    /// Handles a flush of CF `cf` that left `num_memtables` immutable
    /// memtables at `now`: records the count and, when the start-up latch
    /// allows it and no CF has more memtables, adjusts the speed limit
    /// (see `memtable_outcome`).
    pub fn on_memtable_decrs(&mut self, cf: usize, num_memtables: u64, now: u64)
        requires
            old(self).wf(),
            cf < old(self).cf_checkers@.len(),
        ensures
            final(self).wf(),
            memtable_decrs_post(*old(self), *final(self), cf as int, num_memtables, now),
    {
        let ghost old_cfs = self.cf_checkers@;
        let threshold = self.memtables_threshold;
        assert(self.cf_checkers@[cf as int].wf());
        let c = &mut self.cf_checkers[cf];
        let prev = c.last_num_memtables.get_recent();
        c.last_num_memtables.observe(num_memtables, now);
        if c.on_start_memtable {
            if num_memtables < threshold || c.last_num_memtables.trend() == Trend::Increasing {
                c.on_start_memtable = false;
            } else {
                proof {
                    lemma_update_wf(old_cfs, self.cf_checkers@, cf as int);
                }
                return;
            }
        }
        proof {
            lemma_update_wf(old_cfs, self.cf_checkers@, cf as int);
        }
        if !self.is_worst_memtable(num_memtables) {
            return;
        }
        let seed = self.seed_speed();
        let c = &mut self.cf_checkers[cf];
        let should = c.last_num_memtables.avg_above(threshold, 1);
        let recent = c.last_num_memtables.get_recent();
        let proposed = match self.throttle.speed_limit {
            None => {
                if should {
                    c.init_speed = true;
                    seed
                } else {
                    None
                }
            },
            Some(v) => {
                if !should || recent < threshold {
                    c.memtable_debt = 0;
                    if c.init_speed {
                        None
                    } else {
                        Some(v)
                    }
                } else if recent > prev {
                    if c.memtable_debt < i64::MAX {
                        c.memtable_debt = c.memtable_debt + 1;
                    }
                    Some(if v > MEMTABLE_SPEED_STEP { v - MEMTABLE_SPEED_STEP } else { 0 })
                } else if recent < prev {
                    if c.memtable_debt > i64::MIN {
                        c.memtable_debt = c.memtable_debt - 1;
                    }
                    Some(v + MEMTABLE_SPEED_STEP)
                } else {
                    Some(v)
                }
            },
        };
        proof {
            assert(self.cf_checkers@ =~= old_cfs.update(cf as int, self.cf_checkers@[cf as int]));
            lemma_update_wf(old_cfs, self.cf_checkers@, cf as int);
        }
        self.update_speed_limit(proposed);
    }

    fn is_worst_memtable(&self, num: u64) -> (r: bool)
        ensures
            r == is_worst_memtable(self.cf_checkers@, num),
    {
        let n = self.cf_checkers.len();
        let mut i: usize = 0;
        while i < n
            invariant
                n == self.cf_checkers@.len(),
                i <= n,
                forall|j: int| 0 <= j < i ==> !(num < recent_of(#[trigger] self.cf_checkers@[j].last_num_memtables@)),
            decreases n - i,
        {
            if num < self.cf_checkers[i].last_num_memtables.get_recent() {
                return false;
            }
            i = i + 1;
        }
        true
    }

    /// Handles an L0 compaction of CF `cf` that removed `l0_bytes` from L0
    /// and left `num_l0_files` files at `now`: records the count and, when
    /// the start-up latch allows it, decides the throttle state (see
    /// `l0_decr_outcome`).
    pub fn on_l0_decr(&mut self, cf: usize, l0_bytes: u64, num_l0_files: u64, now: u64)
        requires
            old(self).wf(),
            cf < old(self).cf_checkers@.len(),
        ensures
            final(self).wf(),
            l0_decr_post(*old(self), *final(self), cf as int, l0_bytes, num_l0_files, now),
    {
        let ghost old_cfs = self.cf_checkers@;
        let threshold = self.l0_files_threshold;
        assert(self.cf_checkers@[cf as int].wf());
        let c = &mut self.cf_checkers[cf];
        c.last_l0_bytes = c.last_l0_bytes.saturating_add(l0_bytes);
        c.long_term_num_l0_files.observe(num_l0_files, now);
        c.last_num_l0_files = num_l0_files;
        if c.on_start_l0_files {
            if num_l0_files < threshold || c.long_term_num_l0_files.trend() == Trend::Increasing {
                c.on_start_l0_files = false;
            } else {
                proof {
                    lemma_update_wf(old_cfs, self.cf_checkers@, cf as int);
                }
                return;
            }
        }
        proof {
            lemma_update_wf(old_cfs, self.cf_checkers@, cf as int);
        }
        if let Some(a) = self.throttle.throttle_cf {
            if a != cf {
                assert(self.cf_checkers@[a as int].wf());
                let m = self.cf_checkers[a].long_term_num_l0_files.get_max();
                if num_l0_files as u128 > m as u128 + THROTTLE_CF_MARGIN as u128 {
                    assert(self.cf_checkers@[cf as int].wf());
                    let target = self.cf_checkers[cf].short_term_l0_production_flow.get_avg();
                    self.throttle.throttle_cf = Some(cf);
                    self.throttle.target_anchor = Some(num_l0_files);
                    self.throttle.l0_target_flow = target;
                } else {
                    return;
                }
            }
        }
        self.l0_decide(cf);
    }

    fn l0_decide(&mut self, cf: usize)
        requires
            old(self).wf(),
            cf < old(self).cf_checkers@.len(),
        ensures
            final(self).wf(),
            final(self).throttle == l0_decision(
                old(self).throttle,
                old(self).cf_checkers@[cf as int],
                cf as int,
                old(self).l0_files_threshold,
                old(self).write_flow_recorder@,
            ),
            final(self).cf_checkers == old(self).cf_checkers,
            final(self).discard_ratio == old(self).discard_ratio,
            final(self).cf_names == old(self).cf_names,
            final(self).write_flow_recorder == old(self).write_flow_recorder,
            final(self).last_record_time == old(self).last_record_time,
            final(self).l0_files_threshold == old(self).l0_files_threshold,
            final(self).memtables_threshold == old(self).memtables_threshold,
            final(self).soft_pending_compaction_bytes_limit == old(self).soft_pending_compaction_bytes_limit,
            final(self).hard_pending_compaction_bytes_limit == old(self).hard_pending_compaction_bytes_limit,
    {
        let threshold = self.l0_files_threshold;
        assert(self.cf_checkers@[cf as int].wf());
        let c = &self.cf_checkers[cf];
        let num = c.last_num_l0_files;
        let proposed = match self.throttle.speed_limit {
            None => {
                if num > threshold {
                    let target = c.short_term_l0_production_flow.get_avg();
                    self.throttle.throttle_cf = Some(cf);
                    self.throttle.target_anchor = Some(num);
                    self.throttle.l0_target_flow = target;
                    self.seed_speed()
                } else {
                    None
                }
            },
            Some(v) => {
                if num > threshold {
                    match self.throttle.target_anchor {
                        Some(a) => {
                            if num as u128 > a as u128 + TARGET_REFRESH_MARGIN as u128
                                && c.short_term_l0_consumption_flow.avg_below(self.throttle.l0_target_flow, 1) {
                                self.throttle.l0_target_flow = c.short_term_l0_consumption_flow.get_avg();
                                self.throttle.target_anchor = Some(num);
                            }
                        },
                        None => {
                            self.throttle.target_anchor = Some(num);
                            self.throttle.l0_target_flow = c.short_term_l0_production_flow.get_avg();
                        },
                    }
                    Some(v)
                } else if !c.long_term_num_l0_files.avg_below(threshold, 2)
                    || c.last_num_l0_files_from_flush >= threshold {
                    Some(v)
                } else {
                    if self.throttle.target_anchor.is_some()
                        && c.short_term_l0_consumption_flow.avg_above(self.throttle.l0_target_flow, 1) {
                        let mid = midpoint_flow_of(&c.short_term_l0_consumption_flow, self.throttle.l0_target_flow);
                        if mid > self.throttle.l0_target_flow {
                            self.throttle.l0_target_flow = mid;
                        }
                    }
                    Some(v * (100 + LIMIT_UP_PERCENT) / 100)
                }
            },
        };
        self.update_speed_limit(proposed);
    }

    /// The idle release path, run after `SPARE_TICKS_THRESHOLD` idle ticks
    /// (see `tick_outcome`).
    pub fn tick_l0(&mut self)
        requires
            old(self).wf(),
        ensures
            final(self).wf(),
            final(self).throttle == tick_outcome(old(self).throttle, old(self).cf_checkers@, old(self).l0_files_threshold),
            final(self).cf_checkers == old(self).cf_checkers,
            final(self).discard_ratio == old(self).discard_ratio,
            final(self).cf_names == old(self).cf_names,
            final(self).write_flow_recorder == old(self).write_flow_recorder,
            final(self).last_record_time == old(self).last_record_time,
            final(self).l0_files_threshold == old(self).l0_files_threshold,
            final(self).memtables_threshold == old(self).memtables_threshold,
            final(self).soft_pending_compaction_bytes_limit == old(self).soft_pending_compaction_bytes_limit,
            final(self).hard_pending_compaction_bytes_limit == old(self).hard_pending_compaction_bytes_limit,
    {
        let threshold = self.l0_files_threshold;
        if let Some(v) = self.throttle.speed_limit {
            assert(v <= MAX_THROTTLE_SPEED);
            if let Some(a) = self.throttle.throttle_cf {
                assert(self.cf_checkers@[a as int].wf());
                let c = &self.cf_checkers[a];
                if c.last_num_l0_files <= threshold {
                    let keep = !c.long_term_num_l0_files.avg_below(threshold, 2)
                        || c.long_term_num_l0_files.get_recent() as u128 * 2 >= threshold as u128
                        || c.last_num_l0_files_from_flush >= threshold;
                    let proposed = if keep {
                        v
                    } else {
                        proof {
                            assert(v * 120 <= 120 * MAX_THROTTLE_SPEED) by (nonlinear_arith)
                                requires v <= MAX_THROTTLE_SPEED;
                        }
                        v * (100 + 5 * LIMIT_UP_PERCENT) / 100
                    };
                    self.update_speed_limit(Some(proposed));
                }
            }
        }
    }

    /// A decrease step for CF `cf` (see `decreased`).
    fn decrease_speed_limit(&mut self, cf: usize)
        requires
            old(self).wf(),
            cf < old(self).cf_checkers@.len(),
        ensures
            final(self).wf(),
            final(self).throttle == decreased(old(self).throttle, cf as int, old(self).write_flow_recorder@),
            final(self).cf_checkers == old(self).cf_checkers,
            final(self).discard_ratio == old(self).discard_ratio,
            final(self).cf_names == old(self).cf_names,
            final(self).write_flow_recorder == old(self).write_flow_recorder,
            final(self).last_record_time == old(self).last_record_time,
            final(self).l0_files_threshold == old(self).l0_files_threshold,
            final(self).memtables_threshold == old(self).memtables_threshold,
            final(self).soft_pending_compaction_bytes_limit == old(self).soft_pending_compaction_bytes_limit,
            final(self).hard_pending_compaction_bytes_limit == old(self).hard_pending_compaction_bytes_limit,
    {
        let proposed = match self.throttle.speed_limit {
            None => {
                self.throttle.throttle_cf = Some(cf);
                self.seed_speed()
            },
            Some(v) => Some(v * (100 - LIMIT_DOWN_PERCENT) / 100),
        };
        self.update_speed_limit(proposed);
    }

    /// An increase step for CF `cf` (see `increased`).
    fn increase_speed_limit(&mut self, cf: usize)
        requires
            old(self).wf(),
            cf < old(self).cf_checkers@.len(),
        ensures
            final(self).wf(),
            final(self).throttle == increased(
                old(self).throttle,
                cf as int,
                old(self).cf_checkers@[cf as int].short_term_l0_production_flow@,
                old(self).write_flow_recorder@,
            ),
            final(self).cf_checkers == old(self).cf_checkers,
            final(self).discard_ratio == old(self).discard_ratio,
            final(self).cf_names == old(self).cf_names,
            final(self).write_flow_recorder == old(self).write_flow_recorder,
            final(self).last_record_time == old(self).last_record_time,
            final(self).l0_files_threshold == old(self).l0_files_threshold,
            final(self).memtables_threshold == old(self).memtables_threshold,
            final(self).soft_pending_compaction_bytes_limit == old(self).soft_pending_compaction_bytes_limit,
            final(self).hard_pending_compaction_bytes_limit == old(self).hard_pending_compaction_bytes_limit,
    {
        let proposed = match self.throttle.speed_limit {
            None => {
                self.throttle.throttle_cf = Some(cf);
                self.seed_speed()
            },
            Some(v) => {
                assert(self.cf_checkers@[cf as int].wf());
                let u = pid_correction_of(
                    self.throttle.l0_target_flow,
                    &self.cf_checkers[cf].short_term_l0_production_flow,
                    v,
                );
                Some(v + u)
            },
        };
        self.update_speed_limit(proposed);
    }

    /// Handles a flush of CF `cf` that wrote `flush_bytes` to L0 and left
    /// `num_l0_files` files at `now`. Once the accumulated flush bytes cover
    /// more than `FLOW_SAMPLE_MS`, they become a production flow sample (and
    /// the L0 compaction bytes a consumption flow sample) and, when the
    /// start-up latch allows it, the speed limit follows the target flow
    /// (see `l0_incr_outcome`).
    pub fn on_l0_incr(&mut self, cf: usize, flush_bytes: u64, num_l0_files: u64, now: u64)
        requires
            old(self).wf(),
            cf < old(self).cf_checkers@.len(),
        ensures
            final(self).wf(),
            l0_incr_post(*old(self), *final(self), cf as int, flush_bytes, num_l0_files, now),
    {
        let ghost old_cfs = self.cf_checkers@;
        let threshold = self.l0_files_threshold;
        assert(self.cf_checkers@[cf as int].wf());
        let c = &mut self.cf_checkers[cf];
        c.last_flush_bytes = c.last_flush_bytes.saturating_add(flush_bytes);
        c.last_num_l0_files = num_l0_files;
        c.last_num_l0_files_from_flush = num_l0_files;
        if !(now > c.last_flush_bytes_time && now - c.last_flush_bytes_time > FLOW_SAMPLE_MS) {
            proof {
                lemma_update_wf(old_cfs, self.cf_checkers@, cf as int);
            }
            return;
        }
        let flush_flow = flow_rate_of(c.last_flush_bytes, now - c.last_flush_bytes_time);
        c.short_term_l0_production_flow.observe(flush_flow, now);
        c.long_term_l0_production_flow.observe(flush_flow, now);
        if c.last_l0_bytes != 0 {
            let elapsed = if now > c.last_l0_bytes_time { now - c.last_l0_bytes_time } else { 0 };
            let l0_flow = flow_rate_of(c.last_l0_bytes, elapsed);
            c.last_l0_bytes_time = now;
            c.short_term_l0_consumption_flow.observe(l0_flow, now);
        }
        c.last_flush_bytes_time = now;
        c.last_l0_bytes = 0;
        c.last_flush_bytes = 0;
        if c.on_start_l0_files {
            if num_l0_files < threshold || c.long_term_num_l0_files.trend() == Trend::Increasing {
                c.on_start_l0_files = false;
            } else {
                proof {
                    lemma_update_wf(old_cfs, self.cf_checkers@, cf as int);
                }
                return;
            }
        }
        proof {
            lemma_update_wf(old_cfs, self.cf_checkers@, cf as int);
        }
        if let Some(a) = self.throttle.throttle_cf {
            if a != cf {
                return;
            }
        }
        if self.throttle.target_anchor.is_none() {
            return;
        }
        assert(self.cf_checkers@[cf as int].wf());
        let c = &self.cf_checkers[cf];
        let target = self.throttle.l0_target_flow;
        let recent = c.short_term_l0_production_flow.get_recent();
        if c.long_term_l0_production_flow.avg_above(target, 1) && recent > target {
            self.decrease_speed_limit(cf);
        } else if (c.short_term_l0_production_flow.avg_below(target, 1) || recent < target) && match self.throttle.speed_limit {
            Some(v) => self.write_flow_recorder.get_recent() as u128 * 100 > v as u128 * 95,
            None => false,
        } {
            self.increase_speed_limit(cf);
        }
    }

    /// Index of the CF named `name`, if there is one.
    pub fn cf_index(&self, name: &String) -> (r: Option<usize>)
        ensures
            match r {
                Some(i) => is_cf_index(self.cf_names@, name@, i as int),
                None => forall|i: int| 0 <= i < self.cf_names@.len() ==> #[trigger] self.cf_names@[i]@ != name@,
            },
    {
        let n = self.cf_names.len();
        let mut i: usize = 0;
        while i < n
            invariant
                n == self.cf_names@.len(),
                i <= n,
                forall|j: int| 0 <= j < i ==> #[trigger] self.cf_names@[j]@ != name@,
            decreases n - i,
        {
            if self.cf_names[i] == *name {
                return Some(i);
            }
            i = i + 1;
        }
        None
    }

    /// Installs the proposed speed limit (see `applied`).
    pub fn update_speed_limit(&mut self, proposed: Option<u64>)
        requires
            old(self).wf(),
        ensures
            final(self).wf(),
            final(self).throttle == applied(old(self).throttle, proposed),
            final(self).cf_checkers == old(self).cf_checkers,
            final(self).cf_names == old(self).cf_names,
            final(self).write_flow_recorder == old(self).write_flow_recorder,
            final(self).discard_ratio == old(self).discard_ratio,
            final(self).last_record_time == old(self).last_record_time,
            final(self).l0_files_threshold == old(self).l0_files_threshold,
            final(self).memtables_threshold == old(self).memtables_threshold,
            final(self).soft_pending_compaction_bytes_limit == old(self).soft_pending_compaction_bytes_limit,
            final(self).hard_pending_compaction_bytes_limit == old(self).hard_pending_compaction_bytes_limit,
    {
        match proposed {
            Some(v) => {
                let v = if v < MIN_THROTTLE_SPEED { MIN_THROTTLE_SPEED } else { v };
                if v > MAX_THROTTLE_SPEED {
                    self.release();
                } else {
                    self.throttle.speed_limit = Some(v);
                }
            },
            None => {
                self.release();
            },
        }
    }

    fn release(&mut self)
        ensures
            final(self).throttle == (Throttle {
                speed_limit: None,
                throttle_cf: None,
                target_anchor: None,
                ..old(self).throttle
            }),
            final(self).cf_checkers == old(self).cf_checkers,
            final(self).cf_names == old(self).cf_names,
            final(self).write_flow_recorder == old(self).write_flow_recorder,
            final(self).discard_ratio == old(self).discard_ratio,
            final(self).last_record_time == old(self).last_record_time,
            final(self).l0_files_threshold == old(self).l0_files_threshold,
            final(self).memtables_threshold == old(self).memtables_threshold,
            final(self).soft_pending_compaction_bytes_limit == old(self).soft_pending_compaction_bytes_limit,
            final(self).hard_pending_compaction_bytes_limit == old(self).hard_pending_compaction_bytes_limit,
    {
        self.throttle.speed_limit = None;
        self.throttle.throttle_cf = None;
        self.throttle.target_anchor = None;
    }

    /// The speed limit throttling starts from (see `seed_speed`).
    fn seed_speed(&self) -> (r: Option<u64>)
        requires
            self.wf(),
        ensures
            r == seed_speed(self.write_flow_recorder@),
    {
        let x = self.write_flow_recorder.get_percentile_90();
        if x == 0 {
            None
        } else {
            Some(x)
        }
    }

    /// Lifts throttling and the discard ratio and forgets the recorded
    /// foreground write flow.
    pub fn reset_statistics(&mut self)
        requires
            old(self).wf(),
        ensures
            final(self).wf(),
            final(self).throttle == (Throttle { speed_limit: None, ..old(self).throttle }),
            final(self).discard_ratio == 0,
            final(self).write_flow_recorder@.len() == 0,
            final(self).cf_checkers == old(self).cf_checkers,
            FlowChecker::same_config(&*final(self), &*old(self)),
            final(self).last_record_time == old(self).last_record_time,
    {
        self.throttle.speed_limit = None;
        self.discard_ratio = 0;
        self.write_flow_recorder = Smoother::new();
    }

    /// Records the foreground write flow of the span since the last record:
    /// `consumed_bytes` went through the limiter up to `now`. A span with no
    /// bytes records nothing.
    pub fn update_statistics(&mut self, now: u64, consumed_bytes: u64)
        requires
            old(self).wf(),
        ensures
            final(self).wf(),
            final(self).write_flow_recorder@ == if consumed_bytes != 0 {
                swept(
                    pushed(
                        old(self).write_flow_recorder@,
                        flow_rate(consumed_bytes, elapsed_ms(old(self).last_record_time, now)),
                        now,
                        30,
                    ),
                    now,
                )
            } else {
                old(self).write_flow_recorder@
            },
            final(self).last_record_time == now,
            final(self).throttle == old(self).throttle,
            final(self).discard_ratio == old(self).discard_ratio,
            final(self).cf_checkers == old(self).cf_checkers,
            FlowChecker::same_config(&*final(self), &*old(self)),
    {
        let elapsed = if now > self.last_record_time { now - self.last_record_time } else { 0 };
        if consumed_bytes != 0 {
            let rate = flow_rate_of(consumed_bytes, elapsed);
            self.write_flow_recorder.observe(rate, now);
        }
        self.last_record_time = now;
    }
}

/// `name` occurs in `names`.
pub open spec fn contains_name(names: Seq<String>, name: Seq<char>) -> bool {
    exists|j: int| 0 <= j < names.len() && names[j]@ == name
}

/// Replacing the record at `cf` by a well-formed one keeps every record
/// well-formed.
proof fn lemma_update_wf(old_cfs: Seq<CfFlowChecker>, cfs: Seq<CfFlowChecker>, cf: int)
    requires
        0 <= cf < old_cfs.len(),
        cfs == old_cfs.update(cf, cfs[cf]),
        cfs[cf].wf(),
        forall|i: int| 0 <= i < old_cfs.len() ==> #[trigger] old_cfs[i].wf(),
    ensures
        forall|i: int| 0 <= i < cfs.len() ==> #[trigger] cfs[i].wf(),
{
    assert forall|i: int| 0 <= i < cfs.len() implies #[trigger] cfs[i].wf() by {
        if i != cf {
            assert(cfs[i] == old_cfs[i]);
        }
    }
}

/// No name occurs twice in `names`.
pub open spec fn distinct_names(names: Seq<String>) -> bool {
    forall|i: int, j: int| 0 <= i < j < names.len() ==> #[trigger] names[i]@ != #[trigger] names[j]@
}

/// Position of `name` in `names`, if it occurs.
fn position_of(names: &Vec<String>, name: &String) -> (r: Option<usize>)
    ensures
        match r {
            Some(i) => i < names@.len() && names@[i as int]@ == name@,
            None => forall|i: int| 0 <= i < names@.len() ==> #[trigger] names@[i]@ != name@,
        },
{
    let mut i: usize = 0;
    while i < names.len()
        invariant
            i <= names@.len(),
            forall|j: int| 0 <= j < i ==> #[trigger] names@[j]@ != name@,
        decreases names@.len() - i,
    {
        if names[i] == *name {
            return Some(i);
        }
        i = i + 1;
    }
    None
}

/// `i` is the first position of `name` in `names`.
pub open spec fn is_cf_index(names: Seq<String>, name: Seq<char>, i: int) -> bool {
    &&& 0 <= i < names.len()
    &&& names[i]@ == name
    &&& forall|j: int| 0 <= j < i ==> #[trigger] names[j]@ != name
}


/// The effect of `on_pending_compaction_bytes_change(cf, pending_bytes, now)`,
/// taking the checker from `o` to `n`.
pub open spec fn pending_change_post(o: FlowChecker, n: FlowChecker, cf: int, pending_bytes: u64, now: u64) -> bool {
    let num = log2_fixed_of(pending_bytes);
    let soft = log2_fixed_of(o.soft_pending_compaction_bytes_limit);
    let hard = log2_fixed_of(o.hard_pending_compaction_bytes_limit);
    let c0 = o.cf_checkers@[cf];
    let c = n.cf_checkers@[cf];
    let w = c.long_term_pending_bytes@;
    let open = pending_gate_open(c0.on_start_pending_bytes, num, soft, w);
    &&& w == swept(pushed(c0.long_term_pending_bytes@, num as u64, now, 60), now)
    &&& c.on_start_pending_bytes == (c0.on_start_pending_bytes && !open)
    &&& n.discard_ratio == if open && is_worst_pending(n.cf_checkers@, num) {
        next_discard_ratio(o.discard_ratio, sum_samples(w), w.len() as int, soft, hard)
    } else {
        o.discard_ratio
    }
    &&& CfFlowChecker::same_memtable_stats(&n.cf_checkers@[cf], &o.cf_checkers@[cf])
    &&& CfFlowChecker::same_l0_stats(&n.cf_checkers@[cf], &o.cf_checkers@[cf])
    &&& forall|i: int| 0 <= i < o.cf_checkers@.len() && i != cf ==>
        #[trigger] n.cf_checkers@[i] == o.cf_checkers@[i]
    &&& n.cf_checkers@.len() == o.cf_checkers@.len()
    &&& n.throttle == o.throttle
    &&& n.cf_names == o.cf_names
    &&& n.write_flow_recorder == o.write_flow_recorder
    &&& n.last_record_time == o.last_record_time
    &&& n.l0_files_threshold == o.l0_files_threshold
    &&& n.memtables_threshold == o.memtables_threshold
    &&& n.soft_pending_compaction_bytes_limit == o.soft_pending_compaction_bytes_limit
    &&& n.hard_pending_compaction_bytes_limit == o.hard_pending_compaction_bytes_limit
}

/// The effect of `on_memtable_decrs(cf, num_memtables, now)`, taking the
/// checker from `o` to `n`.
pub open spec fn memtable_decrs_post(o: FlowChecker, n: FlowChecker, cf: int, num_memtables: u64, now: u64) -> bool {
    let c0 = o.cf_checkers@[cf];
    let c = n.cf_checkers@[cf];
    let w = c.last_num_memtables@;
    let open = memtable_gate_open(c0.on_start_memtable, num_memtables, o.memtables_threshold, w);
    &&& w == swept(pushed(c0.last_num_memtables@, num_memtables, now, 20), now)
    &&& c.on_start_memtable == (c0.on_start_memtable && !open)
    &&& (n.throttle, c.memtable_debt, c.init_speed) == if open && is_worst_memtable(
        n.cf_checkers@,
        num_memtables,
    ) {
        memtable_outcome(
            o.throttle,
            c0.memtable_debt,
            c0.init_speed,
            w,
            recent_of(c0.last_num_memtables@),
            o.memtables_threshold,
            o.write_flow_recorder@,
        )
    } else {
        (o.throttle, c0.memtable_debt, c0.init_speed)
    }
    &&& CfFlowChecker::same_pending_stats(&n.cf_checkers@[cf], &o.cf_checkers@[cf])
    &&& CfFlowChecker::same_l0_stats(&n.cf_checkers@[cf], &o.cf_checkers@[cf])
    &&& forall|i: int| 0 <= i < o.cf_checkers@.len() && i != cf ==>
        #[trigger] n.cf_checkers@[i] == o.cf_checkers@[i]
    &&& n.cf_checkers@.len() == o.cf_checkers@.len()
    &&& n.discard_ratio == o.discard_ratio
    &&& n.cf_names == o.cf_names
    &&& n.write_flow_recorder == o.write_flow_recorder
    &&& n.last_record_time == o.last_record_time
    &&& n.l0_files_threshold == o.l0_files_threshold
    &&& n.memtables_threshold == o.memtables_threshold
    &&& n.soft_pending_compaction_bytes_limit == o.soft_pending_compaction_bytes_limit
    &&& n.hard_pending_compaction_bytes_limit == o.hard_pending_compaction_bytes_limit
}

/// The effect of `on_l0_decr(cf, l0_bytes, num_l0_files, now)`, taking the
/// checker from `o` to `n`.
pub open spec fn l0_decr_post(o: FlowChecker, n: FlowChecker, cf: int, l0_bytes: u64, num_l0_files: u64, now: u64) -> bool {
    let c0 = o.cf_checkers@[cf];
    let c = n.cf_checkers@[cf];
    let threshold = o.l0_files_threshold;
    let open = l0_gate_open(c0.on_start_l0_files, num_l0_files, threshold, c.long_term_num_l0_files@);
    &&& c.long_term_num_l0_files@ == swept(pushed(c0.long_term_num_l0_files@, num_l0_files, now, 20), now)
    &&& c.last_num_l0_files == num_l0_files
    &&& c.last_l0_bytes == sat_add(c0.last_l0_bytes, l0_bytes)
    &&& c.last_num_l0_files_from_flush == c0.last_num_l0_files_from_flush
    &&& c.last_flush_bytes_time == c0.last_flush_bytes_time
    &&& c.last_flush_bytes == c0.last_flush_bytes
    &&& c.short_term_l0_production_flow == c0.short_term_l0_production_flow
    &&& c.long_term_l0_production_flow == c0.long_term_l0_production_flow
    &&& c.last_l0_bytes_time == c0.last_l0_bytes_time
    &&& c.short_term_l0_consumption_flow == c0.short_term_l0_consumption_flow
    &&& c.on_start_l0_files == (c0.on_start_l0_files && !open)
    &&& n.throttle == if open {
        l0_decr_outcome(o.throttle, n.cf_checkers@, cf, threshold, o.write_flow_recorder@)
    } else {
        o.throttle
    }
    &&& CfFlowChecker::same_memtable_stats(&n.cf_checkers@[cf], &o.cf_checkers@[cf])
    &&& CfFlowChecker::same_pending_stats(&n.cf_checkers@[cf], &o.cf_checkers@[cf])
    &&& forall|i: int| 0 <= i < o.cf_checkers@.len() && i != cf ==>
        #[trigger] n.cf_checkers@[i] == o.cf_checkers@[i]
    &&& n.cf_checkers@.len() == o.cf_checkers@.len()
    &&& n.discard_ratio == o.discard_ratio
    &&& n.cf_names == o.cf_names
    &&& n.write_flow_recorder == o.write_flow_recorder
    &&& n.last_record_time == o.last_record_time
    &&& n.l0_files_threshold == o.l0_files_threshold
    &&& n.memtables_threshold == o.memtables_threshold
    &&& n.soft_pending_compaction_bytes_limit == o.soft_pending_compaction_bytes_limit
    &&& n.hard_pending_compaction_bytes_limit == o.hard_pending_compaction_bytes_limit
}

/// The effect of `on_l0_incr(cf, flush_bytes, num_l0_files, now)`, taking the
/// checker from `o` to `n`.
pub open spec fn l0_incr_post(o: FlowChecker, n: FlowChecker, cf: int, flush_bytes: u64, num_l0_files: u64, now: u64) -> bool {
    let c0 = o.cf_checkers@[cf];
    let c = n.cf_checkers@[cf];
    let added = sat_add(c0.last_flush_bytes, flush_bytes);
    &&& c.last_num_l0_files == num_l0_files
    &&& c.last_num_l0_files_from_flush == num_l0_files
    &&& c.long_term_num_l0_files == c0.long_term_num_l0_files
    &&& if now > c0.last_flush_bytes_time + FLOW_SAMPLE_MS {
        let flow = flow_rate(added, (now - c0.last_flush_bytes_time) as u64);
        let open = l0_gate_open(
            c0.on_start_l0_files,
            num_l0_files,
            o.l0_files_threshold,
            c.long_term_num_l0_files@,
        );
        &&& c.short_term_l0_production_flow@ == swept(
            pushed(c0.short_term_l0_production_flow@, flow, now, 10),
            now,
        )
        &&& c.long_term_l0_production_flow@ == swept(
            pushed(c0.long_term_l0_production_flow@, flow, now, 60),
            now,
        )
        &&& if c0.last_l0_bytes != 0 {
            &&& c.short_term_l0_consumption_flow@ == swept(
                pushed(
                    c0.short_term_l0_consumption_flow@,
                    flow_rate(c0.last_l0_bytes, elapsed_ms(c0.last_l0_bytes_time, now)),
                    now,
                    3,
                ),
                now,
            )
            &&& c.last_l0_bytes_time == now
        } else {
            &&& c.short_term_l0_consumption_flow == c0.short_term_l0_consumption_flow
            &&& c.last_l0_bytes_time == c0.last_l0_bytes_time
        }
        &&& c.last_flush_bytes == 0
        &&& c.last_l0_bytes == 0
        &&& c.last_flush_bytes_time == now
        &&& c.on_start_l0_files == (c0.on_start_l0_files && !open)
        &&& n.throttle == if open {
            l0_incr_outcome(o.throttle, c, cf, o.write_flow_recorder@)
        } else {
            o.throttle
        }
    } else {
        &&& c.last_flush_bytes == added
        &&& c.short_term_l0_production_flow == c0.short_term_l0_production_flow
        &&& c.long_term_l0_production_flow == c0.long_term_l0_production_flow
        &&& c.short_term_l0_consumption_flow == c0.short_term_l0_consumption_flow
        &&& c.last_l0_bytes == c0.last_l0_bytes
        &&& c.last_l0_bytes_time == c0.last_l0_bytes_time
        &&& c.last_flush_bytes_time == c0.last_flush_bytes_time
        &&& c.on_start_l0_files == c0.on_start_l0_files
        &&& n.throttle == o.throttle
    }
    &&& CfFlowChecker::same_memtable_stats(&n.cf_checkers@[cf], &o.cf_checkers@[cf])
    &&& CfFlowChecker::same_pending_stats(&n.cf_checkers@[cf], &o.cf_checkers@[cf])
    &&& forall|i: int| 0 <= i < o.cf_checkers@.len() && i != cf ==>
        #[trigger] n.cf_checkers@[i] == o.cf_checkers@[i]
    &&& n.cf_checkers@.len() == o.cf_checkers@.len()
    &&& n.discard_ratio == o.discard_ratio
    &&& n.cf_names == o.cf_names
    &&& n.write_flow_recorder == o.write_flow_recorder
    &&& n.last_record_time == o.last_record_time
    &&& n.l0_files_threshold == o.l0_files_threshold
    &&& n.memtables_threshold == o.memtables_threshold
    &&& n.soft_pending_compaction_bytes_limit == o.soft_pending_compaction_bytes_limit
    &&& n.hard_pending_compaction_bytes_limit == o.hard_pending_compaction_bytes_limit
}

/// While the pending-bytes start-up latch of a CF is set, a compaction
/// sample at or above the soft limit in a window that does not rise is held
/// back: the latch stays set and the discard ratio is left as it is (so it
/// stays 0 until fresh writes accumulate).
pub proof fn lemma_start_latch_holds(o: FlowChecker, n: FlowChecker, cf: int, pending_bytes: u64, now: u64)
    requires
        0 <= cf < o.cf_checkers@.len(),
        pending_change_post(o, n, cf, pending_bytes, now),
        o.cf_checkers@[cf].on_start_pending_bytes,
        log2_fixed_of(pending_bytes) >= log2_fixed_of(o.soft_pending_compaction_bytes_limit),
        trend_of(n.cf_checkers@[cf].long_term_pending_bytes@, 2 * LOG2_ONE) != Trend::Increasing,
    ensures
        n.discard_ratio == o.discard_ratio,
        n.cf_checkers@[cf].on_start_pending_bytes,
{
}

/// Throttle-CF hysteresis of the L0 compaction handler: while CF `a`
/// drives throttling, another CF `cf` takes over only with more than
/// `THROTTLE_CF_MARGIN` L0 files beyond the most `a` has recorded.
pub proof fn lemma_l0_decr_hysteresis(
    o: FlowChecker,
    n: FlowChecker,
    cf: int,
    a: int,
    l0_bytes: u64,
    num_l0_files: u64,
    now: u64,
)
    requires
        o.wf(),
        0 <= cf < o.cf_checkers@.len(),
        0 <= a < o.cf_checkers@.len(),
        l0_decr_post(o, n, cf, l0_bytes, num_l0_files, now),
        o.throttle.throttle_cf == Some(a as usize),
        a != cf,
        n.throttle.throttle_cf == Some(cf as usize),
    ensures
        num_l0_files > max_sample(o.cf_checkers@[a].long_term_num_l0_files@) + THROTTLE_CF_MARGIN,
{
    let c = n.cf_checkers@[cf];
    let open = l0_gate_open(o.cf_checkers@[cf].on_start_l0_files, num_l0_files, o.l0_files_threshold, c.long_term_num_l0_files@);
    assert(o.cf_checkers.len() == o.cf_checkers@.len());
    if open {
        lemma_throttle_cf_hysteresis(o.throttle, n.cf_checkers@, cf, a, o.l0_files_threshold, o.write_flow_recorder@);
        assert(n.cf_checkers@[a] == o.cf_checkers@[a]);
    }
}

/// Under a steady production deficit (the latest flush flow at or below the
/// target), the flush handler never lowers the speed limit: it keeps it,
/// raises it by the PID correction, or releases throttling.
pub proof fn lemma_l0_incr_steady_deficit(
    o: FlowChecker,
    n: FlowChecker,
    cf: int,
    flush_bytes: u64,
    num_l0_files: u64,
    now: u64,
)
    requires
        o.wf(),
        0 <= cf < o.cf_checkers@.len(),
        l0_incr_post(o, n, cf, flush_bytes, num_l0_files, now),
        o.throttle.speed_limit is Some,
        recent_of(n.cf_checkers@[cf].short_term_l0_production_flow@) <= o.throttle.l0_target_flow,
    ensures
        n.throttle.speed_limit is None || n.throttle.speed_limit->0 >= o.throttle.speed_limit->0,
{
    lemma_steady_deficit_never_lowers(o.throttle, n.cf_checkers@[cf], cf, o.write_flow_recorder@);
}

/// Bounds of the discard ratio through the compaction handler, with `w`
/// the CF's pending-bytes window after the sample and `soft < hard` the
/// limits' logarithms: the ratio is 0 (or untouched) while the average is
/// below `soft`; from at most `RATIO_SCALE` it stays at most `RATIO_SCALE`
/// while the average does not exceed `hard`; and from a positive ratio one
/// step moves it at most by the weight 0.4 of the gap to the raw ratio (up
/// to rounding).
pub proof fn lemma_pending_change_ratio_bounds(o: FlowChecker, n: FlowChecker, cf: int, pending_bytes: u64, now: u64)
    requires
        0 <= cf < o.cf_checkers@.len(),
        pending_change_post(o, n, cf, pending_bytes, now),
        log2_fixed_of(o.soft_pending_compaction_bytes_limit) < log2_fixed_of(o.hard_pending_compaction_bytes_limit),
    ensures
        ({
            let w = n.cf_checkers@[cf].long_term_pending_bytes@;
            let sum = sum_samples(w);
            let len = w.len() as int;
            let soft = log2_fixed_of(o.soft_pending_compaction_bytes_limit);
            let hard = log2_fixed_of(o.hard_pending_compaction_bytes_limit);
            let d = raw_ratio_den(len, soft, hard);
            &&& sum < soft * len ==> n.discard_ratio == 0 || n.discard_ratio == o.discard_ratio
            &&& soft * len <= sum <= hard * len && o.discard_ratio <= RATIO_SCALE ==> n.discard_ratio <= RATIO_SCALE
            &&& soft * len <= sum && o.discard_ratio > 0 ==> n.discard_ratio == o.discard_ratio
                || 10 * n.discard_ratio * d <= 6 * o.discard_ratio * d + 4 * raw_ratio_num(sum, len, soft, hard) + 5 * d
        }),
{
    let w = n.cf_checkers@[cf].long_term_pending_bytes@;
    crate::smoother::lemma_sum_bound(w);
    let soft = log2_fixed_of(o.soft_pending_compaction_bytes_limit);
    let hard = log2_fixed_of(o.hard_pending_compaction_bytes_limit);
    crate::log2::lemma_log2_fixed_monotonic(0, o.soft_pending_compaction_bytes_limit);
    let num = log2_fixed_of(pending_bytes);
    crate::smoother::lemma_swept_shape(
        pushed(o.cf_checkers@[cf].long_term_pending_bytes@, num as u64, now, 60),
        now,
    );
    lemma_discard_ratio_bounds(o.discard_ratio, sum_samples(w), w.len() as int, soft, hard);
}

} // verus!
