//! The decisions of the background worker that runs the flow checker: which
//! handler an engine event goes to, when the idle release path runs, and
//! what enabling and disabling do. The worker's loop itself (channels,
//! deadlines, the limiter) lives with the caller, which hands each command,
//! event or idle tick to a `FlowWorker`.

use crate::checker::{
    elapsed_ms, flow_rate, is_cf_index, l0_decr_post, l0_incr_post, memtable_decrs_post,
    pending_change_post, FlowChecker, SPARE_TICKS_THRESHOLD,
};
use crate::throttle::{tick_outcome, Throttle};
use crate::log2::{lemma_log2_fixed_range, log2_fixed_of};
use crate::smoother::{
    avg_above, lemma_bounded_sum, lemma_observe_bounded, lemma_swept_shape, pushed,
    samples_at_most, sum_samples, swept,
};
use vstd::prelude::*;

verus! {

/// A command from the controller façade to the worker.
#[derive(PartialEq, Eq, Structural, Debug, Clone, Copy)]
pub enum Msg {
    Close,
    Enable,
    Disable,
}

/// An engine event, with the engine metrics read when it arrived.
pub enum FlowInfo {
    /// An L0 compaction of `cf` removed `l0_bytes` from L0, leaving
    /// `num_l0_files` files.
    L0 { cf: String, l0_bytes: u64, num_l0_files: u64 },
    /// An intra-L0 compaction of `cf` shrank L0 by `diff_bytes`, leaving
    /// `num_l0_files` files.
    L0Intra { cf: String, diff_bytes: u64, num_l0_files: u64 },
    /// A flush of `cf` wrote `flush_bytes` to L0, leaving `num_memtables`
    /// immutable memtables and `num_l0_files` L0 files.
    Flush { cf: String, flush_bytes: u64, num_memtables: u64, num_l0_files: u64 },
    /// A compaction of `cf` finished; `pending_bytes` compaction bytes are
    /// pending.
    Compaction { cf: String, pending_bytes: u64 },
}

impl FlowInfo {
    /// The column family the event is about.
    pub open spec fn cf(&self) -> String {
        match self {
            FlowInfo::L0 { cf, .. } => *cf,
            FlowInfo::L0Intra { cf, .. } => *cf,
            FlowInfo::Flush { cf, .. } => *cf,
            FlowInfo::Compaction { cf, .. } => *cf,
        }
    }
}

/// The checker goes from `o` to `n` as the handler for `info` says, `info`
/// being about the CF at index `i`.
pub open spec fn dispatched(o: FlowChecker, n: FlowChecker, info: FlowInfo, i: int, now: u64) -> bool {
    match info {
        FlowInfo::L0 { l0_bytes, num_l0_files, .. } => l0_decr_post(o, n, i, l0_bytes, num_l0_files, now),
        FlowInfo::L0Intra { diff_bytes, num_l0_files, .. } => if diff_bytes > 0 {
            l0_decr_post(o, n, i, diff_bytes, num_l0_files, now)
        } else {
            n == o
        },
        FlowInfo::Flush { flush_bytes, num_memtables, num_l0_files, .. } => exists|m: FlowChecker|
            #[trigger] memtable_decrs_post(o, m, i, num_memtables, now)
                && l0_incr_post(m, n, i, flush_bytes, num_l0_files, now),
        FlowInfo::Compaction { pending_bytes, .. } => pending_change_post(o, n, i, pending_bytes, now),
    }
}

/// The worker's state: the checker it owns, whether throttling is enabled,
/// and the number of consecutive idle ticks.
pub struct FlowWorker {
    pub checker: FlowChecker,
    pub enabled: bool,
    pub spare_ticks: u64,
}

impl FlowWorker {
    pub open spec fn wf(&self) -> bool {
        &&& self.checker.wf()
        &&& self.spare_ticks < SPARE_TICKS_THRESHOLD
    }

    /// A worker for `checker`, enabled and with no idle ticks.
    pub fn new(checker: FlowChecker) -> (r: Self)
        requires
            checker.wf(),
        ensures
            r.wf(),
            r.checker == checker,
            r.enabled,
            r.spare_ticks == 0,
    {
        FlowWorker { checker, enabled: true, spare_ticks: 0 }
    }

    /// Applies a command; returns whether the worker keeps running. Disable
    /// also resets the checker's statistics.
    pub fn on_command(&mut self, msg: Msg) -> (running: bool)
        requires
            old(self).wf(),
        ensures
            final(self).wf(),
            running == (msg != Msg::Close),
            final(self).spare_ticks == old(self).spare_ticks,
            match msg {
                Msg::Close => *final(self) == *old(self),
                Msg::Enable => final(self).enabled && final(self).checker == old(self).checker,
                Msg::Disable => {
                    &&& !final(self).enabled
                    &&& final(self).checker.throttle == (Throttle {
                        speed_limit: None,
                        ..old(self).checker.throttle
                    })
                    &&& final(self).checker.discard_ratio == 0
                    &&& final(self).checker.write_flow_recorder@.len() == 0
                    &&& final(self).checker.cf_checkers == old(self).checker.cf_checkers
                    &&& FlowChecker::same_config(&final(self).checker, &old(self).checker)
                    &&& final(self).checker.last_record_time == old(self).checker.last_record_time
                },
            },
    {
        match msg {
            Msg::Close => false,
            Msg::Enable => {
                self.enabled = true;
                true
            },
            Msg::Disable => {
                self.enabled = false;
                self.checker.reset_statistics();
                true
            },
        }
    }

    /// Handles an engine event at `now`. A disabled worker discards every
    /// event, leaving its state as it is. Events of unknown CFs are ignored;
    /// an event of the throttle CF ends an idle stretch. `L0` and `L0Intra`
    /// with a positive size go to `on_l0_decr`, `Flush` to
    /// `on_memtable_decrs` then `on_l0_incr`, `Compaction` to
    /// `on_pending_compaction_bytes_change`.
    pub fn on_flow_info(&mut self, info: FlowInfo, now: u64)
        requires
            old(self).wf(),
        ensures
            final(self).wf(),
            !old(self).enabled ==> *final(self) == *old(self),
            final(self).enabled == old(self).enabled,
            FlowChecker::same_config(&final(self).checker, &old(self).checker),
            final(self).checker.last_record_time == old(self).checker.last_record_time,
            final(self).checker.write_flow_recorder == old(self).checker.write_flow_recorder,
            old(self).enabled ==> final(self).spare_ticks == match old(self).checker.throttle.throttle_cf {
                Some(t) => if old(self).checker.cf_names@[t as int]@ == info.cf()@ {
                    0
                } else {
                    old(self).spare_ticks
                },
                None => old(self).spare_ticks,
            },
            (forall|i: int| 0 <= i < old(self).checker.cf_names@.len() ==> #[trigger] old(self).checker.cf_names@[i]@ != info.cf()@)
                ==> final(self).checker == old(self).checker,
            forall|i: int| old(self).enabled && #[trigger] is_cf_index(old(self).checker.cf_names@, info.cf()@, i)
                ==> dispatched(old(self).checker, final(self).checker, info, i, now),
    {
        if !self.enabled {
            return;
        }
        let name = match &info {
            FlowInfo::L0 { cf, .. } => cf,
            FlowInfo::L0Intra { cf, .. } => cf,
            FlowInfo::Flush { cf, .. } => cf,
            FlowInfo::Compaction { cf, .. } => cf,
        };
        if let Some(t) = self.checker.throttle.throttle_cf {
            if self.checker.cf_names[t] == *name {
                self.spare_ticks = 0;
            }
        }
        let i = match self.checker.cf_index(name) {
            Some(i) => i,
            None => {
                return;
            },
        };
        match info {
            FlowInfo::L0 { l0_bytes, num_l0_files, .. } => {
                self.checker.on_l0_decr(i, l0_bytes, num_l0_files, now);
            },
            FlowInfo::L0Intra { diff_bytes, num_l0_files, .. } => {
                if diff_bytes > 0 {
                    self.checker.on_l0_decr(i, diff_bytes, num_l0_files, now);
                }
            },
            FlowInfo::Flush { flush_bytes, num_memtables, num_l0_files, .. } => {
                self.checker.on_memtable_decrs(i, num_memtables, now);
                let ghost mid = self.checker;
                self.checker.on_l0_incr(i, flush_bytes, num_l0_files, now);
                assert(memtable_decrs_post(old(self).checker, mid, i as int, num_memtables, now));
            },
            FlowInfo::Compaction { pending_bytes, .. } => {
                self.checker.on_pending_compaction_bytes_change(i, pending_bytes, now);
            },
        }
    }

    /// Handles an idle tick at `now`, `consumed_bytes` having gone through
    /// the limiter since the last one: every `SPARE_TICKS_THRESHOLD`-th
    /// consecutive idle tick runs the idle release path, and every tick
    /// records the foreground write flow.
    pub fn on_tick(&mut self, now: u64, consumed_bytes: u64)
        requires
            old(self).wf(),
        ensures
            final(self).wf(),
            final(self).enabled == old(self).enabled,
            final(self).spare_ticks == if old(self).spare_ticks + 1 == SPARE_TICKS_THRESHOLD {
                0
            } else {
                old(self).spare_ticks + 1
            },
            final(self).checker.throttle == if old(self).spare_ticks + 1 == SPARE_TICKS_THRESHOLD {
                tick_outcome(
                    old(self).checker.throttle,
                    old(self).checker.cf_checkers@,
                    old(self).checker.l0_files_threshold,
                )
            } else {
                old(self).checker.throttle
            },
            final(self).checker.write_flow_recorder@ == if consumed_bytes != 0 {
                swept(
                    pushed(
                        old(self).checker.write_flow_recorder@,
                        flow_rate(consumed_bytes, elapsed_ms(old(self).checker.last_record_time, now)),
                        now,
                        30,
                    ),
                    now,
                )
            } else {
                old(self).checker.write_flow_recorder@
            },
            final(self).checker.last_record_time == now,
            final(self).checker.discard_ratio == old(self).checker.discard_ratio,
            final(self).checker.cf_checkers == old(self).checker.cf_checkers,
            FlowChecker::same_config(&final(self).checker, &old(self).checker),
    {
        self.spare_ticks = self.spare_ticks + 1;
        if self.spare_ticks == SPARE_TICKS_THRESHOLD {
            self.checker.tick_l0();
            self.spare_ticks = 0;
        }
        self.checker.update_statistics(now, consumed_bytes);
    }
}

} // verus!

verus! {

/// The controller is at rest: unlimited, with no target anchored and no
/// write dropped, and every recorded memtable count, L0 file count and
/// pending-bytes logarithm within its threshold.
pub open spec fn is_quiet(c: FlowChecker) -> bool {
    &&& c.throttle.speed_limit is None
    &&& c.throttle.target_anchor is None
    &&& c.discard_ratio == 0
    &&& forall|i: int| 0 <= i < c.cf_checkers@.len() ==> {
        let cc = #[trigger] c.cf_checkers@[i];
        &&& samples_at_most(cc.last_num_memtables@, c.memtables_threshold as int)
        &&& cc.last_num_l0_files <= c.l0_files_threshold
        &&& samples_at_most(
            cc.long_term_pending_bytes@,
            log2_fixed_of(c.soft_pending_compaction_bytes_limit) - 1,
        )
    }
}

/// The engine readings that `info` carries are within the thresholds of `c`:
/// at most as many memtables and L0 files as the thresholds, and pending
/// bytes whose logarithm is below the soft limit's.
pub open spec fn readings_within(c: FlowChecker, info: FlowInfo) -> bool {
    match info {
        FlowInfo::L0 { num_l0_files, .. } => num_l0_files <= c.l0_files_threshold,
        FlowInfo::L0Intra { num_l0_files, .. } => num_l0_files <= c.l0_files_threshold,
        FlowInfo::Flush { num_memtables, num_l0_files, .. } => num_memtables <= c.memtables_threshold
            && num_l0_files <= c.l0_files_threshold,
        FlowInfo::Compaction { pending_bytes, .. } => log2_fixed_of(pending_bytes) < log2_fixed_of(
            c.soft_pending_compaction_bytes_limit,
        ),
    }
}

proof fn lemma_quiet_pending(o: FlowChecker, n: FlowChecker, cf: int, pending_bytes: u64, now: u64)
    requires
        is_quiet(o),
        0 <= cf < o.cf_checkers@.len(),
        pending_change_post(o, n, cf, pending_bytes, now),
        log2_fixed_of(pending_bytes) < log2_fixed_of(o.soft_pending_compaction_bytes_limit),
    ensures
        is_quiet(n),
{
    let soft = log2_fixed_of(o.soft_pending_compaction_bytes_limit);
    let num = log2_fixed_of(pending_bytes);
    let s0 = o.cf_checkers@[cf].long_term_pending_bytes@;
    let w = n.cf_checkers@[cf].long_term_pending_bytes@;
    assert(samples_at_most(s0, soft - 1));
    lemma_log2_fixed_range(pending_bytes);
    lemma_observe_bounded(s0, num as u64, now, 60, soft - 1);
    lemma_bounded_sum(w, soft - 1);
    lemma_swept_shape(pushed(s0, num as u64, now, 60), now);
    assert(w.len() > 0);
    assert(sum_samples(w) < soft * w.len()) by (nonlinear_arith)
        requires sum_samples(w) <= (soft - 1) * w.len(), w.len() > 0;
    assert forall|i: int| 0 <= i < n.cf_checkers@.len() implies {
        let cc = #[trigger] n.cf_checkers@[i];
        &&& samples_at_most(cc.last_num_memtables@, n.memtables_threshold as int)
        &&& cc.last_num_l0_files <= n.l0_files_threshold
        &&& samples_at_most(cc.long_term_pending_bytes@, log2_fixed_of(n.soft_pending_compaction_bytes_limit) - 1)
    } by {
        if i != cf {
            assert(n.cf_checkers@[i] == o.cf_checkers@[i]);
        }
        assert(o.cf_checkers@[i] == o.cf_checkers@[i]);
    }
}

proof fn lemma_quiet_memtable(o: FlowChecker, n: FlowChecker, cf: int, num_memtables: u64, now: u64)
    requires
        is_quiet(o),
        0 <= cf < o.cf_checkers@.len(),
        memtable_decrs_post(o, n, cf, num_memtables, now),
        num_memtables <= o.memtables_threshold,
    ensures
        is_quiet(n),
{
    let s0 = o.cf_checkers@[cf].last_num_memtables@;
    let w = n.cf_checkers@[cf].last_num_memtables@;
    let thr = o.memtables_threshold as int;
    assert(samples_at_most(s0, thr));
    lemma_observe_bounded(s0, num_memtables, now, 20, thr);
    lemma_bounded_sum(w, thr);
    assert(!avg_above(w, thr, 1));
    assert forall|i: int| 0 <= i < n.cf_checkers@.len() implies {
        let cc = #[trigger] n.cf_checkers@[i];
        &&& samples_at_most(cc.last_num_memtables@, n.memtables_threshold as int)
        &&& cc.last_num_l0_files <= n.l0_files_threshold
        &&& samples_at_most(cc.long_term_pending_bytes@, log2_fixed_of(n.soft_pending_compaction_bytes_limit) - 1)
    } by {
        if i != cf {
            assert(n.cf_checkers@[i] == o.cf_checkers@[i]);
        }
        assert(o.cf_checkers@[i] == o.cf_checkers@[i]);
    }
}

proof fn lemma_quiet_l0_decr(o: FlowChecker, n: FlowChecker, cf: int, l0_bytes: u64, num_l0_files: u64, now: u64)
    requires
        is_quiet(o),
        0 <= cf < o.cf_checkers@.len(),
        l0_decr_post(o, n, cf, l0_bytes, num_l0_files, now),
        num_l0_files <= o.l0_files_threshold,
    ensures
        is_quiet(n),
{
    assert forall|i: int| 0 <= i < n.cf_checkers@.len() implies {
        let cc = #[trigger] n.cf_checkers@[i];
        &&& samples_at_most(cc.last_num_memtables@, n.memtables_threshold as int)
        &&& cc.last_num_l0_files <= n.l0_files_threshold
        &&& samples_at_most(cc.long_term_pending_bytes@, log2_fixed_of(n.soft_pending_compaction_bytes_limit) - 1)
    } by {
        if i != cf {
            assert(n.cf_checkers@[i] == o.cf_checkers@[i]);
        }
        assert(o.cf_checkers@[i] == o.cf_checkers@[i]);
    }
}

proof fn lemma_quiet_l0_incr(o: FlowChecker, n: FlowChecker, cf: int, flush_bytes: u64, num_l0_files: u64, now: u64)
    requires
        is_quiet(o),
        0 <= cf < o.cf_checkers@.len(),
        l0_incr_post(o, n, cf, flush_bytes, num_l0_files, now),
        num_l0_files <= o.l0_files_threshold,
    ensures
        is_quiet(n),
{
    assert forall|i: int| 0 <= i < n.cf_checkers@.len() implies {
        let cc = #[trigger] n.cf_checkers@[i];
        &&& samples_at_most(cc.last_num_memtables@, n.memtables_threshold as int)
        &&& cc.last_num_l0_files <= n.l0_files_threshold
        &&& samples_at_most(cc.long_term_pending_bytes@, log2_fixed_of(n.soft_pending_compaction_bytes_limit) - 1)
    } by {
        if i != cf {
            assert(n.cf_checkers@[i] == o.cf_checkers@[i]);
        }
        assert(o.cf_checkers@[i] == o.cf_checkers@[i]);
    }
}

/// Below the thresholds nothing throttles: an engine event whose readings
/// are within the thresholds leaves a quiet controller quiet (unlimited,
/// nothing dropped), and so does an idle tick.
pub proof fn lemma_quiet_stays_quiet(o: FlowChecker, n: FlowChecker, info: FlowInfo, i: int, now: u64)
    requires
        is_quiet(o),
        is_cf_index(o.cf_names@, info.cf()@, i),
        o.cf_checkers@.len() == o.cf_names@.len(),
        dispatched(o, n, info, i, now),
        readings_within(o, info),
    ensures
        is_quiet(n),
        tick_outcome(o.throttle, o.cf_checkers@, o.l0_files_threshold) == o.throttle,
{
    match info {
        FlowInfo::L0 { l0_bytes, num_l0_files, .. } => {
            lemma_quiet_l0_decr(o, n, i, l0_bytes, num_l0_files, now);
        },
        FlowInfo::L0Intra { diff_bytes, num_l0_files, .. } => {
            if diff_bytes > 0 {
                lemma_quiet_l0_decr(o, n, i, diff_bytes, num_l0_files, now);
            }
        },
        FlowInfo::Flush { flush_bytes, num_memtables, num_l0_files, .. } => {
            let m = choose|m: FlowChecker|
                #[trigger] memtable_decrs_post(o, m, i, num_memtables, now)
                    && l0_incr_post(m, n, i, flush_bytes, num_l0_files, now);
            lemma_quiet_memtable(o, m, i, num_memtables, now);
            lemma_quiet_l0_incr(m, n, i, flush_bytes, num_l0_files, now);
        },
        FlowInfo::Compaction { pending_bytes, .. } => {
            lemma_quiet_pending(o, n, i, pending_bytes, now);
        },
    }
}

} // verus!
