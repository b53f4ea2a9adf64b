//! The discard ratio: the probability, scaled by `RATIO_SCALE`, of
//! dropping a write to bound the growth of pending-compaction bytes. It maps
//! the average logarithm of pending bytes from the soft limit (0) to the
//! hard limit (1), smoothed from one sample to the next.

use vstd::prelude::*;

verus! {

/// Scale of the discard ratio: `RATIO_SCALE` means "drop every write".
pub const RATIO_SCALE: u64 = 10_000_000;

/// The discard ratio a fresh episode of pending-bytes pressure starts from
/// (1% of `RATIO_SCALE`).
pub const START_RATIO: u64 = 100_000;

/// `a / b` rounded to the nearest integer, halves rounded up.
pub open spec fn round_div(a: int, b: int) -> int {
    (2 * a + b) / (2 * b)
}

/// Numerator of the raw discard ratio, scaled by `RATIO_SCALE`: how far the
/// average `sum / len` stands above `soft` on the way to `hard`. Limits
/// with `hard <= soft` count as fully reached.
pub open spec fn raw_ratio_num(sum: int, len: int, soft: int, hard: int) -> int {
    if hard > soft {
        (sum - soft * len) * RATIO_SCALE
    } else {
        RATIO_SCALE as int
    }
}

/// Denominator of the raw discard ratio (see `raw_ratio_num`).
pub open spec fn raw_ratio_den(len: int, soft: int, hard: int) -> int {
    if hard > soft {
        len * (hard - soft)
    } else {
        1
    }
}

/// The discard ratio that follows `old_ratio` when the pending-bytes window
/// holds `len > 0` samples summing to `sum`, with the limits' logarithms
/// `soft` and `hard`: 0 below `soft`; otherwise the raw ratio smoothed into
/// the old one (weights 0.4 and 0.6), or, from 0, the raw ratio capped at
/// `START_RATIO`. Rounded, and capped at `u32::MAX`.
pub open spec fn next_discard_ratio(old_ratio: u32, sum: int, len: int, soft: int, hard: int) -> u32 {
    if sum < soft * len {
        0
    } else {
        let n = raw_ratio_num(sum, len, soft, hard);
        let d = raw_ratio_den(len, soft, hard);
        let v = if old_ratio != 0 {
            round_div(6 * old_ratio * d + 4 * n, 10 * d)
        } else if n > START_RATIO * d {
            START_RATIO as int
        } else {
            round_div(n, d)
        };
        if v > u32::MAX {
            u32::MAX
        } else {
            v as u32
        }
    }
}

/// The discard ratio after `old_ratio` for a pending-bytes window of `len`
/// samples summing to `total` (see `next_discard_ratio`).
pub fn discard_ratio_after(old_ratio: u32, total: u128, len: usize, soft: u64, hard: u64) -> (r: u32)
    requires
        0 < len <= 1024,
        total <= len * 0xffff_ffff_ffff_ffff,
    ensures
        r == next_discard_ratio(old_ratio, total as int, len as int, soft as int, hard as int),
{
    let l = len as u128;
    proof {
        assert(soft * len <= 0xffff_ffff_ffff_ffff * 1024) by (nonlinear_arith)
            requires soft <= 0xffff_ffff_ffff_ffff, len <= 1024;
    }
    let soft_total = soft as u128 * l;
    if total < soft_total {
        return 0;
    }
    let (n, d): (u128, u128) = if hard > soft {
        proof {
            assert((hard - soft) * len <= 0xffff_ffff_ffff_ffff * 1024) by (nonlinear_arith)
                requires hard - soft <= 0xffff_ffff_ffff_ffff, len <= 1024;
            assert((total - soft_total) * RATIO_SCALE <= 0xffff_ffff_ffff_ffff * 1024 * RATIO_SCALE) by (nonlinear_arith)
                requires total - soft_total <= 0xffff_ffff_ffff_ffff * 1024;
            assert(len * (hard - soft) >= 1) by (nonlinear_arith)
                requires hard - soft >= 1, len >= 1;
        }
        ((total - soft_total) * RATIO_SCALE as u128, l * (hard - soft) as u128)
    } else {
        (RATIO_SCALE as u128, 1)
    };
    assert(1 <= d <= 0xffff_ffff_ffff_ffff * 1024);
    assert(n <= 0xffff_ffff_ffff_ffff * 1024 * RATIO_SCALE);
    let v: u128 = if old_ratio != 0 {
        proof {
            assert(6 * old_ratio * d <= 6 * 0xffff_ffff * (0xffff_ffff_ffff_ffff * 1024)) by (nonlinear_arith)
                requires old_ratio <= 0xffff_ffff, d <= 0xffff_ffff_ffff_ffff * 1024;
        }
        let a = 6 * old_ratio as u128 * d + 4 * n;
        (2 * a + 10 * d) / (2 * (10 * d))
    } else if n > {
        proof {
            assert(START_RATIO * d <= RATIO_SCALE * (0xffff_ffff_ffff_ffff * 1024)) by (nonlinear_arith)
                requires d <= 0xffff_ffff_ffff_ffff * 1024;
        }
        START_RATIO as u128 * d
    } {
        START_RATIO as u128
    } else {
        (2 * n + d) / (2 * d)
    };
    if v > u32::MAX as u128 {
        u32::MAX
    } else {
        v as u32
    }
}

proof fn lemma_round_div_at_most(a: int, b: int, k: int)
    requires
        b > 0,
        0 <= a <= k * b,
    ensures
        round_div(a, b) <= k,
{
    assert(2 * a + b < (2 * b) * (k + 1)) by (nonlinear_arith)
        requires b > 0, a <= k * b;
    assert((2 * a + b) / (2 * b) < k + 1) by (nonlinear_arith)
        requires 2 * a + b < (2 * b) * (k + 1), b > 0, 2 * a + b >= 0;
}

proof fn lemma_round_div_positive(a: int, b: int)
    requires
        b > 0,
        2 * a >= b,
    ensures
        round_div(a, b) >= 1,
{
    assert((2 * a + b) / (2 * b) >= 1) by (nonlinear_arith)
        requires 2 * a + b >= 2 * b, b > 0;
}

proof fn lemma_round_div_lower(a: int, b: int)
    requires
        b > 0,
    ensures
        round_div(a, b) * (2 * b) > 2 * a - b,
{
    assert(((2 * a + b) / (2 * b)) * (2 * b) > 2 * a + b - 2 * b) by (nonlinear_arith)
        requires b > 0;
}

proof fn lemma_round_div_upper(a: int, b: int)
    requires
        b > 0,
    ensures
        round_div(a, b) * (2 * b) <= 2 * a + b,
{
    assert(((2 * a + b) / (2 * b)) * (2 * b) <= 2 * a + b) by (nonlinear_arith)
        requires b > 0;
}

/// Bounds of the discard ratio, for a window of `len > 0` pending-bytes
/// logarithms summing to `sum`, and limits whose logarithms satisfy
/// `soft < hard`:
/// - the ratio is 0 while the average is below `soft`;
/// - from a ratio of at most `RATIO_SCALE`, it stays at most `RATIO_SCALE`
///   while the average does not exceed `hard`;
/// - above `soft` it is positive, once the old ratio is positive or the raw
///   ratio reaches half a unit of `RATIO_SCALE`;
/// - from a positive old ratio, one step lands within rounding of
///   `0.6 * old + 0.4 * raw` (below `u32::MAX`), so repeated samples of one
///   backlog converge to its raw ratio.
pub proof fn lemma_discard_ratio_bounds(old_ratio: u32, sum: int, len: int, soft: int, hard: int)
    requires
        len > 0,
        sum >= 0,
        0 <= soft < hard,
    ensures
        sum < soft * len ==> next_discard_ratio(old_ratio, sum, len, soft, hard) == 0,
        soft * len <= sum <= hard * len && old_ratio <= RATIO_SCALE
            ==> next_discard_ratio(old_ratio, sum, len, soft, hard) <= RATIO_SCALE,
        soft * len < sum && (old_ratio > 0 || 2 * raw_ratio_num(sum, len, soft, hard) >= raw_ratio_den(len, soft, hard))
            ==> next_discard_ratio(old_ratio, sum, len, soft, hard) > 0,
        soft * len <= sum && old_ratio > 0 ==> 10 * next_discard_ratio(old_ratio, sum, len, soft, hard)
            * raw_ratio_den(len, soft, hard) <= 6 * old_ratio * raw_ratio_den(len, soft, hard) + 4
            * raw_ratio_num(sum, len, soft, hard) + 5 * raw_ratio_den(len, soft, hard),
        soft * len <= sum && old_ratio > 0 && next_discard_ratio(old_ratio, sum, len, soft, hard) < u32::MAX
            ==> 10 * next_discard_ratio(old_ratio, sum, len, soft, hard) * raw_ratio_den(len, soft, hard) + 5
            * raw_ratio_den(len, soft, hard) > 6 * old_ratio * raw_ratio_den(len, soft, hard) + 4 * raw_ratio_num(
            sum,
            len,
            soft,
            hard,
        ),
{
    let n = raw_ratio_num(sum, len, soft, hard);
    let d = raw_ratio_den(len, soft, hard);
    if sum >= soft * len {
        assert(d > 0) by (nonlinear_arith)
            requires d == len * (hard - soft), len > 0, hard > soft;
        assert(n >= 0) by (nonlinear_arith)
            requires n == (sum - soft * len) * RATIO_SCALE, sum >= soft * len;
        if sum <= hard * len {
            assert(n <= RATIO_SCALE * d) by (nonlinear_arith)
                requires
                    n == (sum - soft * len) * RATIO_SCALE,
                    d == len * (hard - soft),
                    sum <= hard * len,
            ;
        }
        if old_ratio > 0 {
            let a = 6 * old_ratio * d + 4 * n;
            assert(a >= 0) by (nonlinear_arith)
                requires old_ratio > 0, d > 0, n >= 0, a == 6 * old_ratio * d + 4 * n;
            if sum <= hard * len && old_ratio <= RATIO_SCALE {
                assert(a <= RATIO_SCALE * (10 * d)) by (nonlinear_arith)
                    requires old_ratio <= RATIO_SCALE, n <= RATIO_SCALE * d, d > 0, a == 6 * old_ratio * d + 4 * n;
                lemma_round_div_at_most(a, 10 * d, RATIO_SCALE as int);
            }
            assert(2 * a >= 10 * d) by (nonlinear_arith)
                requires old_ratio >= 1, d > 0, n >= 0, a == 6 * old_ratio * d + 4 * n;
            lemma_round_div_positive(a, 10 * d);
            lemma_round_div_upper(a, 10 * d);
            lemma_round_div_lower(a, 10 * d);
            let v = round_div(a, 10 * d);
            let r = next_discard_ratio(old_ratio, sum, len, soft, hard);
            assert(r <= v);
            assert(10 * r * d <= 10 * v * d) by (nonlinear_arith)
                requires r <= v, d > 0, r >= 0;
            assert(10 * v * d <= a + 5 * d) by (nonlinear_arith)
                requires v * (2 * (10 * d)) <= 2 * a + 10 * d;
            assert(10 * v * d + 5 * d > a) by (nonlinear_arith)
                requires v * (2 * (10 * d)) > 2 * a - 10 * d;
        } else if n <= START_RATIO * d {
            if sum <= hard * len {
                lemma_round_div_at_most(n, d, RATIO_SCALE as int);
            }
            if 2 * n >= d {
                lemma_round_div_positive(n, d);
            }
        }
    }
}

} // verus!
