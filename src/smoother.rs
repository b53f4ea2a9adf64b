//! A bounded, time-stamped sliding window of integer samples.

use std::collections::VecDeque;
use vstd::prelude::*;

verus! {

/// Records older than this many milliseconds are dropped from the front of
/// the window, as long as more than two records remain.
pub const STALE_RECORD_MS: u64 = 300_000;

/// Largest window capacity supported; keeps every sum far from overflow.
pub const MAX_CAPACITY: usize = 1024;

/// Bound on the magnitude of any window's slope.
pub const SLOPE_BOUND: i128 = 2000 * 1024 * 0xffff_ffff_ffff_ffff;

/// Direction of a window's samples: the right half against the left half.
#[derive(PartialEq, Eq, Structural, Debug, Clone, Copy)]
pub enum Trend {
    Increasing,
    Decreasing,
    NoTrend,
}

/// Sum of the samples (first components) of `s`.
pub open spec fn sum_samples(s: Seq<(u64, u64)>) -> int
    decreases s.len(),
{
    if s.len() == 0 {
        0
    } else {
        sum_samples(s.drop_last()) + s.last().0
    }
}

/// The window after appending `(x, now)`, evicting the oldest record first
/// when the window already holds `cap` records.
pub open spec fn pushed(s: Seq<(u64, u64)>, x: u64, now: u64, cap: int) -> Seq<(u64, u64)> {
    if s.len() >= cap {
        s.subrange(1, s.len() as int).push((x, now))
    } else {
        s.push((x, now))
    }
}

/// Whether a record taken at `t` is stale at time `now`.
pub open spec fn is_stale(t: u64, now: u64) -> bool {
    now > t + STALE_RECORD_MS
}

/// The window after dropping stale records from the front while more than
/// two records remain.
pub open spec fn swept(s: Seq<(u64, u64)>, now: u64) -> Seq<(u64, u64)>
    decreases s.len(),
{
    if s.len() > 2 && is_stale(s[0].1, now) {
        swept(s.subrange(1, s.len() as int), now)
    } else {
        s
    }
}

/// Largest sample of `s`, or 0 when `s` is empty.
pub open spec fn max_sample(s: Seq<(u64, u64)>) -> u64
    decreases s.len(),
{
    if s.len() == 0 {
        0
    } else {
        let m = max_sample(s.drop_last());
        if s.last().0 > m { s.last().0 } else { m }
    }
}

/// Number of samples of `s` strictly below `x`.
pub open spec fn count_below(s: Seq<(u64, u64)>, x: u64) -> nat
    decreases s.len(),
{
    if s.len() == 0 {
        0
    } else {
        count_below(s.drop_last(), x) + if s.last().0 < x { 1nat } else { 0nat }
    }
}

/// Number of samples of `s` at most `x`.
pub open spec fn count_at_most(s: Seq<(u64, u64)>, x: u64) -> nat
    decreases s.len(),
{
    if s.len() == 0 {
        0
    } else {
        count_at_most(s.drop_last(), x) + if s.last().0 <= x { 1nat } else { 0nat }
    }
}

/// `x` is a sample of `s` and stands at position `k` once the samples are
/// sorted in ascending order.
pub open spec fn is_kth_smallest(s: Seq<(u64, u64)>, k: int, x: u64) -> bool {
    &&& exists|i: int| 0 <= i < s.len() && #[trigger] s[i].0 == x
    &&& count_below(s, x) <= k < count_at_most(s, x)
}

/// Position of the 90th percentile in a sorted window of `len` samples.
pub open spec fn percentile_90_index(len: int) -> int {
    (len - 1) * 9 / 10
}

/// Size of each half of a window of `len` records (the middle record of an
/// odd-length window belongs to neither half).
pub open spec fn half_len(len: int) -> int {
    len / 2
}

/// Sum of the samples of the older half of `s`.
pub open spec fn left_sum(s: Seq<(u64, u64)>) -> int {
    sum_samples(s.subrange(0, half_len(s.len() as int)))
}

/// Sum of the samples of the newer half of `s`.
pub open spec fn right_sum(s: Seq<(u64, u64)>) -> int {
    sum_samples(s.subrange(s.len() - half_len(s.len() as int), s.len() as int))
}

/// Trend of `s`: a half must exceed the other by more than `margin`.
pub open spec fn trend_of(s: Seq<(u64, u64)>, margin: int) -> Trend {
    if s.len() <= 1 {
        Trend::NoTrend
    } else if right_sum(s) > left_sum(s) + margin {
        Trend::Increasing
    } else if left_sum(s) > right_sum(s) + margin {
        Trend::Decreasing
    } else {
        Trend::NoTrend
    }
}

/// Integer division rounding towards zero, as Rust's `/` does.
pub open spec fn div_toward_zero(a: int, b: int) -> int {
    if a >= 0 {
        a / b
    } else {
        -((-a) / b)
    }
}

/// Slope of `s` in sample units per second: the difference of the two
/// halves' averages over half the window's time span, rounded towards zero.
/// A window of at most one record, or one whose records share a timestamp,
/// has slope 0.
pub open spec fn slope_of(s: Seq<(u64, u64)>) -> int {
    if s.len() <= 1 || s.last().1 <= s[0].1 {
        0
    } else {
        div_toward_zero(
            2000 * (right_sum(s) - left_sum(s)),
            half_len(s.len() as int) * (s.last().1 - s[0].1),
        )
    }
}

/// The 90th-percentile sample of `s`, or 0 when `s` is empty.
pub open spec fn percentile_90_of(s: Seq<(u64, u64)>) -> u64 {
    if s.len() == 0 {
        0
    } else {
        choose|x: u64| is_kth_smallest(s, percentile_90_index(s.len() as int), x)
    }
}

/// The average of the samples of `s` is above `num / den` (an empty window
/// averages 0).
pub open spec fn avg_above(s: Seq<(u64, u64)>, num: int, den: int) -> bool {
    if s.len() == 0 {
        0 > num
    } else {
        sum_samples(s) * den > num * s.len()
    }
}

/// The average of the samples of `s` is below `num / den` (an empty window
/// averages 0).
pub open spec fn avg_below(s: Seq<(u64, u64)>, num: int, den: int) -> bool {
    if s.len() == 0 {
        0 < num
    } else {
        sum_samples(s) * den < num * s.len()
    }
}

/// The average of the samples rounded down, or 0 when `s` is empty.
pub open spec fn avg_floor(s: Seq<(u64, u64)>) -> int {
    if s.len() == 0 {
        0
    } else {
        sum_samples(s) / (s.len() as int)
    }
}

/// The most recent sample of `s`, or 0 when `s` is empty.
pub open spec fn recent_of(s: Seq<(u64, u64)>) -> u64 {
    if s.len() == 0 {
        0
    } else {
        s.last().0
    }
}

proof fn lemma_count_mono(s: Seq<(u64, u64)>, x: u64, y: u64)
    requires
        x < y,
    ensures
        count_at_most(s, x) <= count_below(s, y),
    decreases s.len(),
{
    if s.len() > 0 {
        lemma_count_mono(s.drop_last(), x, y);
    }
}

/// The `k`-th smallest sample is unique.
proof fn lemma_kth_unique(s: Seq<(u64, u64)>, k: int, x: u64, y: u64)
    requires
        is_kth_smallest(s, k, x),
        is_kth_smallest(s, k, y),
    ensures
        x == y,
{
    if x < y {
        lemma_count_mono(s, x, y);
    } else if y < x {
        lemma_count_mono(s, y, x);
    }
}

proof fn lemma_sum_front(s: Seq<(u64, u64)>)
    requires
        s.len() > 0,
    ensures
        sum_samples(s) == s[0].0 + sum_samples(s.subrange(1, s.len() as int)),
    decreases s.len(),
{
    if s.len() > 1 {
        let t = s.subrange(1, s.len() as int);
        lemma_sum_front(s.drop_last());
        assert(s.drop_last().subrange(1, s.len() - 1) =~= t.drop_last());
    } else {
        assert(s.drop_last() =~= Seq::<(u64, u64)>::empty());
        assert(s.subrange(1, s.len() as int) =~= Seq::<(u64, u64)>::empty());
    }
}

pub proof fn lemma_sum_bound(s: Seq<(u64, u64)>)
    ensures
        0 <= sum_samples(s) <= s.len() * 0xffff_ffff_ffff_ffff,
    decreases s.len(),
{
    if s.len() > 0 {
        lemma_sum_bound(s.drop_last());
    }
}

/// Running sum over a prefix, extended by one record.
proof fn lemma_sum_prefix_step(s: Seq<(u64, u64)>, i: int)
    requires
        0 <= i < s.len(),
    ensures
        sum_samples(s.subrange(0, i + 1)) == sum_samples(s.subrange(0, i)) + s[i].0,
{
    assert(s.subrange(0, i + 1).drop_last() =~= s.subrange(0, i));
}

/// Running sum over a range, extended by one record at the end.
proof fn lemma_sum_range_step(s: Seq<(u64, u64)>, lo: int, i: int)
    requires
        0 <= lo <= i < s.len(),
    ensures
        sum_samples(s.subrange(lo, i + 1)) == sum_samples(s.subrange(lo, i)) + s[i].0,
{
    assert(s.subrange(lo, i + 1).drop_last() =~= s.subrange(lo, i));
}

proof fn lemma_max_sample(s: Seq<(u64, u64)>)
    requires
        s.len() > 0,
    ensures
        forall|i: int| 0 <= i < s.len() ==> #[trigger] s[i].0 <= max_sample(s),
        exists|i: int| 0 <= i < s.len() && #[trigger] s[i].0 == max_sample(s),
    decreases s.len(),
{
    let t = s.drop_last();
    if t.len() > 0 {
        lemma_max_sample(t);
        assert forall|i: int| 0 <= i < s.len() implies #[trigger] s[i].0 <= max_sample(s) by {
            if i < t.len() {
                assert(s[i] == t[i]);
            }
        }
        if s.last().0 <= max_sample(t) {
            let j = choose|j: int| 0 <= j < t.len() && #[trigger] t[j].0 == max_sample(t);
            assert(s[j] == t[j]);
        } else {
            assert(s[s.len() - 1].0 == max_sample(s));
        }
    } else {
        assert(max_sample(t) == 0);
        assert(s[0].0 == max_sample(s));
    }
}

proof fn lemma_count_at_most_all(s: Seq<(u64, u64)>, x: u64)
    requires
        forall|i: int| 0 <= i < s.len() ==> #[trigger] s[i].0 <= x,
    ensures
        count_at_most(s, x) == s.len(),
    decreases s.len(),
{
    if s.len() > 0 {
        let t = s.drop_last();
        assert forall|i: int| 0 <= i < t.len() implies #[trigger] t[i].0 <= x by {
            assert(t[i] == s[i]);
        }
        lemma_count_at_most_all(t, x);
    }
}

proof fn lemma_count_below_none(s: Seq<(u64, u64)>, x: u64)
    requires
        forall|i: int| 0 <= i < s.len() ==> #[trigger] s[i].0 >= x,
    ensures
        count_below(s, x) == 0,
    decreases s.len(),
{
    if s.len() > 0 {
        let t = s.drop_last();
        assert forall|i: int| 0 <= i < t.len() implies #[trigger] t[i].0 >= x by {
            assert(t[i] == s[i]);
        }
        lemma_count_below_none(t, x);
    }
}

proof fn lemma_count_below_as_at_most(s: Seq<(u64, u64)>, a: u64, b: u64)
    requires
        forall|i: int| 0 <= i < s.len() ==> (#[trigger] s[i].0 < a) == (s[i].0 <= b),
    ensures
        count_below(s, a) == count_at_most(s, b),
    decreases s.len(),
{
    if s.len() > 0 {
        let t = s.drop_last();
        assert forall|i: int| 0 <= i < t.len() implies (#[trigger] t[i].0 < a) == (t[i].0 <= b) by {
            assert(t[i] == s[i]);
        }
        lemma_count_below_as_at_most(t, a, b);
        assert((s[s.len() - 1].0 < a) == (s[s.len() - 1].0 <= b));
    }
}


/// What the stale sweep keeps: a suffix of the window, at least
/// `min(2, len)` long, whose front is fresh unless at most two records remain.
pub proof fn lemma_swept_shape(s: Seq<(u64, u64)>, now: u64)
    ensures
        exists|k: int| 0 <= k <= s.len() && #[trigger] swept(s, now) == s.subrange(k, s.len() as int),
        swept(s, now).len() <= s.len(),
        s.len() <= 2 ==> swept(s, now) == s,
        s.len() > 2 ==> swept(s, now).len() >= 2,
        swept(s, now).len() <= 2 || !is_stale(swept(s, now)[0].1, now),
    decreases s.len(),
{
    if s.len() > 2 && is_stale(s[0].1, now) {
        let t = s.subrange(1, s.len() as int);
        lemma_swept_shape(t, now);
        let k = choose|k: int| 0 <= k <= t.len() && #[trigger] swept(t, now) == t.subrange(k, t.len() as int);
        assert(t.subrange(k, t.len() as int) =~= s.subrange(k + 1, s.len() as int));
    } else {
        assert(s.subrange(0, s.len() as int) =~= s);
    }
}

/// Inserting a record into a window whose oldest record is more than the
/// stale threshold older than the new one evicts that oldest record, unless
/// fewer than three records would remain.
pub proof fn lemma_stale_front_evicted(s: Seq<(u64, u64)>, x: u64, now: u64, cap: int)
    requires
        cap >= 1,
        s.len() <= cap,
    ensures
        ({
            let p = pushed(s, x, now, cap);
            p.len() > 2 && is_stale(p[0].1, now) ==> swept(p, now) == swept(
                p.subrange(1, p.len() as int),
                now,
            ) && swept(p, now).len() < p.len()
        }),
{
    let p = pushed(s, x, now, cap);
    if p.len() > 2 && is_stale(p[0].1, now) {
        lemma_swept_shape(p.subrange(1, p.len() as int), now);
    }
}

/// A sliding window of at most `CAP` samples, each with the time (in
/// milliseconds) at which it was observed, and the running sum of the
/// samples.
pub struct Smoother<const CAP: usize> {
    records: VecDeque<(u64, u64)>,
    total: u128,
}

impl<const CAP: usize> View for Smoother<CAP> {
    type V = Seq<(u64, u64)>;

    closed spec fn view(&self) -> Seq<(u64, u64)> {
        self.records@
    }
}

impl<const CAP: usize> Smoother<CAP> {
    /// The window holds at most `CAP` records and its running total is the
    /// sum of its samples.
    pub closed spec fn wf(&self) -> bool {
        &&& 0 < CAP <= MAX_CAPACITY
        &&& self.records@.len() <= CAP
        &&& self.total == sum_samples(self.records@)
    }

    /// The running sum of the samples.
    pub closed spec fn spec_total(&self) -> int {
        self.total as int
    }

    pub proof fn lemma_wf(&self)
        requires
            self.wf(),
        ensures
            0 < CAP <= MAX_CAPACITY,
            self@.len() <= CAP,
            self.spec_total() == sum_samples(self@),
    {
    }

    /// An empty window.
    pub fn new() -> (r: Self)
        requires
            0 < CAP <= MAX_CAPACITY,
        ensures
            r.wf(),
            r@ == Seq::<(u64, u64)>::empty(),
    {
        Smoother { records: VecDeque::new(), total: 0 }
    }

    /// Number of records in the window.
    pub fn len(&self) -> (r: usize)
        ensures
            r == self@.len(),
    {
        self.records.len()
    }

    /// Sum of the samples in the window.
    pub fn get_total(&self) -> (r: u128)
        requires
            self.wf(),
        ensures
            r == sum_samples(self@),
    {
        self.total
    }

    /// Appends `record` observed at `now`, evicting the oldest record when
    /// the window is full, then drops stale records from the front.
    pub fn observe(&mut self, record: u64, now: u64)
        requires
            old(self).wf(),
        ensures
            final(self).wf(),
            final(self)@ == swept(pushed(old(self)@, record, now, CAP as int), now),
            final(self)@.len() >= 1,
            final(self)@.last() == (record, now),
    {
        if self.records.len() == CAP {
            proof {
                lemma_sum_front(self.records@);
                lemma_sum_bound(self.records@.subrange(1, self.records@.len() as int));
            }
            let front = self.records.pop_front();
            if let Some((v, _)) = front {
                self.total = self.total - v as u128;
            }
        }
        proof {
            lemma_sum_bound(self.records@);
        }
        self.total = self.total + record as u128;
        let ghost before = self.records@;
        self.records.push_back((record, now));
        proof {
            assert(self.records@.drop_last() =~= before);
        }
        self.remove_stale_records(now);
        proof {
            let p = pushed(old(self)@, record, now, CAP as int);
            lemma_swept_shape(p, now);
            let k = choose|k: int| 0 <= k <= p.len() && #[trigger] swept(p, now) == p.subrange(k, p.len() as int);
            assert(swept(p, now).last() == p.last());
        }
    }

    fn remove_stale_records(&mut self, now: u64)
        requires
            old(self).wf(),
        ensures
            final(self).wf(),
            final(self)@ == swept(old(self)@, now),
    {
        while self.records.len() > 2
            invariant
                self.wf(),
                swept(self.records@, now) == swept(old(self)@, now),
            decreases self.records@.len(),
        {
            let front_time = self.records[0].1;
            if now > front_time && now - front_time > STALE_RECORD_MS {
                proof {
                    lemma_sum_front(self.records@);
                    lemma_sum_bound(self.records@.subrange(1, self.records@.len() as int));
                }
                let front = self.records.pop_front();
                if let Some((v, _)) = front {
                    self.total = self.total - v as u128;
                }
            } else {
                return;
            }
        }
    }

    /// The most recent sample, or 0 when the window is empty.
    pub fn get_recent(&self) -> (r: u64)
        ensures
            r == recent_of(self@),
    {
        let n = self.records.len();
        if n == 0 {
            0
        } else {
            self.records[n - 1].0
        }
    }

    /// The average of the samples rounded down, or 0 when the window is
    /// empty.
    pub fn get_avg(&self) -> (r: u64)
        requires
            self.wf(),
        ensures
            r == avg_floor(self@),
    {
        let n = self.records.len();
        if n == 0 {
            0
        } else {
            proof {
                lemma_sum_bound(self.records@);
                assert(sum_samples(self@) / (n as int) <= 0xffff_ffff_ffff_ffff) by (nonlinear_arith)
                    requires
                        0 <= sum_samples(self@) <= n * 0xffff_ffff_ffff_ffff,
                        n > 0,
                ;
            }
            (self.total / n as u128) as u64
        }
    }

    /// The largest sample, or 0 when the window is empty.
    pub fn get_max(&self) -> (r: u64)
        ensures
            r == max_sample(self@),
    {
        let n = self.records.len();
        let mut m: u64 = 0;
        let mut i: usize = 0;
        while i < n
            invariant
                n == self@.len(),
                i <= n,
                m == max_sample(self@.subrange(0, i as int)),
            decreases n - i,
        {
            proof {
                assert(self@.subrange(0, i + 1).drop_last() =~= self@.subrange(0, i as int));
            }
            let x = self.records[i].0;
            if x > m {
                m = x;
            }
            i = i + 1;
        }
        proof {
            assert(self@.subrange(0, n as int) =~= self@);
        }
        m
    }

    /// Whether the average sample is above `num / den`.
    pub fn avg_above(&self, num: u64, den: u32) -> (r: bool)
        requires
            self.wf(),
            1 <= den,
        ensures
            r == avg_above(self@, num as int, den as int),
    {
        let n = self.records.len();
        if n == 0 {
            return false;
        }
        proof {
            lemma_sum_bound(self@);
            assert(sum_samples(self@) * den <= 1024 * 0xffff_ffff_ffff_ffff * 0xffff_ffff) by (nonlinear_arith)
                requires
                    sum_samples(self@) <= n * 0xffff_ffff_ffff_ffff,
                    0 <= sum_samples(self@),
                    n <= 1024,
                    den <= 0xffff_ffff,
            ;
            assert(num * n <= 0xffff_ffff_ffff_ffff * 1024) by (nonlinear_arith)
                requires
                    num <= 0xffff_ffff_ffff_ffff,
                    n <= 1024,
            ;
        }
        self.total * den as u128 > num as u128 * n as u128
    }

    /// Whether the average sample is below `num / den`.
    pub fn avg_below(&self, num: u64, den: u32) -> (r: bool)
        requires
            self.wf(),
            1 <= den,
        ensures
            r == avg_below(self@, num as int, den as int),
    {
        let n = self.records.len();
        if n == 0 {
            return num > 0;
        }
        proof {
            lemma_sum_bound(self@);
            assert(sum_samples(self@) * den <= 1024 * 0xffff_ffff_ffff_ffff * 0xffff_ffff) by (nonlinear_arith)
                requires
                    sum_samples(self@) <= n * 0xffff_ffff_ffff_ffff,
                    0 <= sum_samples(self@),
                    n <= 1024,
                    den <= 0xffff_ffff,
            ;
            assert(num * n <= 0xffff_ffff_ffff_ffff * 1024) by (nonlinear_arith)
                requires
                    num <= 0xffff_ffff_ffff_ffff,
                    n <= 1024,
            ;
        }
        self.total * (den as u128) < num as u128 * n as u128
    }

    fn count_at_most_of(&self, x: u64) -> (r: usize)
        ensures
            r == count_at_most(self@, x),
    {
        let n = self.records.len();
        let mut c: usize = 0;
        let mut i: usize = 0;
        while i < n
            invariant
                n == self@.len(),
                i <= n,
                c == count_at_most(self@.subrange(0, i as int), x),
                c <= i,
            decreases n - i,
        {
            proof {
                assert(self@.subrange(0, i + 1).drop_last() =~= self@.subrange(0, i as int));
            }
            if self.records[i].0 <= x {
                c = c + 1;
            }
            i = i + 1;
        }
        proof {
            assert(self@.subrange(0, n as int) =~= self@);
        }
        c
    }

    /// The sample at position `floor((len - 1) * 0.9)` of the sorted
    /// samples, or 0 when the window is empty.
    pub fn get_percentile_90(&self) -> (r: u64)
        requires
            self.wf(),
        ensures
            self@.len() == 0 ==> r == 0,
            self@.len() > 0 ==> is_kth_smallest(self@, percentile_90_index(self@.len() as int), r),
            r == percentile_90_of(self@),
    {
        let n = self.records.len();
        if n == 0 {
            return 0;
        }
        let k: usize = (n - 1) * 9 / 10;
        let ghost s = self@;
        // The smallest sample with more than `k` samples at or below it.
        let mut best = self.get_max();
        proof {
            lemma_max_sample(s);
            lemma_count_at_most_all(s, best);
        }
        let mut i: usize = 0;
        while i < n
            invariant
                n == s.len(),
                s == self@,
                k < n,
                i <= n,
                exists|j: int| 0 <= j < n && #[trigger] s[j].0 == best,
                count_at_most(s, best) > k,
                forall|j: int| 0 <= j < i && count_at_most(s, #[trigger] s[j].0) > k ==> best <= s[j].0,
            decreases n - i,
        {
            let x = self.records[i].0;
            if x < best && self.count_at_most_of(x) > k {
                best = x;
            }
            i = i + 1;
        }
        // The largest sample below `best`, if any.
        let mut below: Option<u64> = None;
        let mut i: usize = 0;
        while i < n
            invariant
                n == s.len(),
                s == self@,
                i <= n,
                match below {
                    None => forall|j: int| 0 <= j < i ==> #[trigger] s[j].0 >= best,
                    Some(z) => {
                        &&& z < best
                        &&& exists|j: int| 0 <= j < n && #[trigger] s[j].0 == z
                        &&& forall|j: int| 0 <= j < i && #[trigger] s[j].0 < best ==> s[j].0 <= z
                    },
                },
            decreases n - i,
        {
            let x = self.records[i].0;
            if x < best {
                match below {
                    None => {
                        below = Some(x);
                    },
                    Some(z) => {
                        if x > z {
                            below = Some(x);
                        }
                    },
                }
            }
            i = i + 1;
        }
        proof {
            match below {
                None => {
                    lemma_count_below_none(s, best);
                },
                Some(z) => {
                    lemma_count_below_as_at_most(s, best, z);
                    let j = choose|j: int| 0 <= j < n && #[trigger] s[j].0 == z;
                    assert(count_at_most(s, s[j].0) <= k);
                },
            }
            assert(k as int == percentile_90_index(s.len() as int));
            assert(is_kth_smallest(s, percentile_90_index(s.len() as int), best));
            let c = choose|x: u64| is_kth_smallest(s, percentile_90_index(s.len() as int), x);
            lemma_kth_unique(s, k as int, best, c);
        }
        best
    }

    fn range_sum(&self, lo: usize, hi: usize) -> (r: u128)
        requires
            lo <= hi <= self@.len(),
            self@.len() <= MAX_CAPACITY,
        ensures
            r == sum_samples(self@.subrange(lo as int, hi as int)),
    {
        let mut acc: u128 = 0;
        let mut i: usize = lo;
        proof {
            assert(self@.subrange(lo as int, lo as int) =~= Seq::<(u64, u64)>::empty());
        }
        while i < hi
            invariant
                lo <= i <= hi <= self@.len(),
                self@.len() <= MAX_CAPACITY,
                acc == sum_samples(self@.subrange(lo as int, i as int)),
            decreases hi - i,
        {
            proof {
                lemma_sum_range_step(self@, lo as int, i as int);
                lemma_sum_bound(self@.subrange(lo as int, i + 1));
            }
            acc = acc + self.records[i].0 as u128;
            i = i + 1;
        }
        acc
    }

    /// Trend of the window, where one half must exceed the other by more
    /// than `margin` to count.
    pub fn trend_with_margin(&self, margin: u64) -> (r: Trend)
        requires
            self.wf(),
        ensures
            r == trend_of(self@, margin as int),
    {
        let n = self.records.len();
        if n <= 1 {
            return Trend::NoTrend;
        }
        let half = n / 2;
        let left = self.range_sum(0, half);
        let right = self.range_sum(n - half, n);
        proof {
            lemma_sum_bound(self@.subrange(0, half as int));
            lemma_sum_bound(self@.subrange(n - half, n as int));
        }
        if right > left + margin as u128 {
            Trend::Increasing
        } else if left > right + margin as u128 {
            Trend::Decreasing
        } else {
            Trend::NoTrend
        }
    }

    /// Trend of the window with a tolerance of 2 between the halves.
    pub fn trend(&self) -> (r: Trend)
        requires
            self.wf(),
        ensures
            r == trend_of(self@, 2),
    {
        self.trend_with_margin(2)
    }

    /// Slope of the window in sample units per second (see `slope_of`).
    pub fn slope(&self) -> (r: i128)
        requires
            self.wf(),
        ensures
            r == slope_of(self@),
            -SLOPE_BOUND <= r <= SLOPE_BOUND,
    {
        let n = self.records.len();
        if n <= 1 {
            return 0;
        }
        let first = self.records[0].1;
        let last = self.records[n - 1].1;
        if last <= first {
            return 0;
        }
        let half = n / 2;
        let left = self.range_sum(0, half);
        let right = self.range_sum(n - half, n);
        proof {
            lemma_sum_bound(self@.subrange(0, half as int));
            lemma_sum_bound(self@.subrange(n - half, n as int));
            assert(half * 0xffff_ffff_ffff_ffff <= 1024 * 0xffff_ffff_ffff_ffff) by (nonlinear_arith)
                requires half <= 1024;
        }
        let span: u64 = last - first;
        proof {
            assert(half as int * span as int >= 1) by (nonlinear_arith)
                requires half >= 1, span >= 1;
            assert(half as int * span as int <= 1024 * 0xffff_ffff_ffff_ffff) by (nonlinear_arith)
                requires half <= 1024, span <= 0xffff_ffff_ffff_ffff;
        }
        let den: i128 = (half as u128 * span as u128) as i128;
        let diff = right as i128 - left as i128;
        let num = 2000 * diff;
        if num >= 0 {
            let q = num / den;
            proof {
                assert(q <= num) by (nonlinear_arith)
                    requires q == (num as int) / (den as int), num >= 0, den >= 1;
            }
            q
        } else {
            let q = (-num) / den;
            proof {
                assert(q <= -num) by (nonlinear_arith)
                    requires q == (-num as int) / (den as int), -num >= 0, den >= 1;
            }
            -q
        }
    }
}

} // verus!

verus! {

/// Every sample of `s` is at most `b`.
pub open spec fn samples_at_most(s: Seq<(u64, u64)>, b: int) -> bool {
    forall|j: int| 0 <= j < s.len() ==> #[trigger] s[j].0 <= b
}

/// A window whose samples are all at most `b` averages at most `b`.
pub proof fn lemma_bounded_sum(s: Seq<(u64, u64)>, b: int)
    requires
        samples_at_most(s, b),
    ensures
        sum_samples(s) <= b * s.len(),
    decreases s.len(),
{
    if s.len() > 0 {
        let t = s.drop_last();
        assert forall|j: int| 0 <= j < t.len() implies #[trigger] t[j].0 <= b by {
            assert(t[j] == s[j]);
        }
        lemma_bounded_sum(t, b);
        assert(s[s.len() - 1].0 <= b);
        assert(b * s.len() == b * t.len() + b) by (nonlinear_arith)
            requires s.len() == t.len() + 1;
    }
}

/// Observing a sample at most `b` into a window whose samples are at most
/// `b` keeps every sample at most `b`.
pub proof fn lemma_observe_bounded(s: Seq<(u64, u64)>, x: u64, now: u64, cap: int, b: int)
    requires
        samples_at_most(s, b),
        x <= b,
        cap >= 1,
    ensures
        samples_at_most(swept(pushed(s, x, now, cap), now), b),
{
    let p = pushed(s, x, now, cap);
    assert forall|j: int| 0 <= j < p.len() implies #[trigger] p[j].0 <= b by {
        if j < p.len() - 1 {
            if s.len() >= cap {
                assert(p[j] == s[j + 1]);
            } else {
                assert(p[j] == s[j]);
            }
        }
    }
    lemma_swept_shape(p, now);
    let k = choose|k: int| 0 <= k <= p.len() && #[trigger] swept(p, now) == p.subrange(k, p.len() as int);
    let w = swept(p, now);
    assert forall|j: int| 0 <= j < w.len() implies #[trigger] w[j].0 <= b by {
        assert(w[j] == p[j + k]);
    }
}

} // verus!
