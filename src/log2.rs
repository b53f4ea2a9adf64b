//! Fixed-point base-2 logarithm of byte counts.
//!
//! Pending-compaction bytes swing over many orders of magnitude, so the
//! controller works on their logarithm. The logarithm is kept in fixed point
//! with 16 fractional bits (`LOG2_ONE` is 1.0): the integer part is the
//! position of the highest set bit and the fraction is the linear
//! interpolation between the two neighbouring powers of two. The value is
//! exact at powers of two (`lemma_log2_fixed_exact`), never decreases as
//! its argument grows (`lemma_log2_fixed_monotonic`), and stays below the
//! true base-2 logarithm by less than 0.09 in between.

use vstd::arithmetic::power2::{
    lemma2_to64, lemma2_to64_rest, lemma_pow2_pos, lemma_pow2_strictly_increases,
    lemma_pow2_unfold, pow2,
};
use vstd::prelude::*;

verus! {

/// The fixed-point value 1.0.
pub const LOG2_ONE: u64 = 65536;

/// Position of the highest set bit of `x` (0 for 0 and 1).
pub open spec fn floor_log2(x: nat) -> nat
    decreases x,
{
    if x < 2 {
        0
    } else {
        1 + floor_log2(x / 2)
    }
}

/// Fixed-point logarithm of `x`; 0 for `x == 0`.
pub open spec fn log2_fixed_of(x: u64) -> int {
    if x == 0 {
        0
    } else {
        let e = floor_log2(x as nat);
        e * LOG2_ONE + (x - pow2(e)) * LOG2_ONE / (pow2(e) as int)
    }
}

proof fn lemma_floor_log2(x: nat, e: nat)
    requires
        pow2(e) <= x < 2 * pow2(e),
    ensures
        floor_log2(x) == e,
    decreases e,
{
    if e > 0 {
        lemma_pow2_unfold(e);
        lemma_pow2_pos((e - 1) as nat);
        lemma_floor_log2(x / 2, (e - 1) as nat);
    } else {
        lemma2_to64();
    }
}

/// The fixed-point logarithm of `x` (see `log2_fixed_of`).
pub fn log2_fixed(x: u64) -> (r: u64)
    ensures
        r == log2_fixed_of(x),
        r < 64 * LOG2_ONE,
{
    if x == 0 {
        return 0;
    }
    let mut p: u128 = 1;
    let mut e: u64 = 0;
    proof {
        lemma2_to64();
    }
    while p * 2 <= x as u128
        invariant
            1 <= p <= x,
            p == pow2(e as nat),
            e < 64,
            x > 0,
        decreases x - p,
    {
        proof {
            lemma2_to64();
            if e >= 63 {
                if e > 63 {
                    lemma_pow2_strictly_increases(63, e as nat);
                }
            }
            lemma_pow2_unfold((e + 1) as nat);
        }
        p = p * 2;
        e = e + 1;
    }
    proof {
        lemma_floor_log2(x as nat, e as nat);
    }
    let frac: u128 = ((x as u128 - p) * LOG2_ONE as u128) / p;
    proof {
        assert(frac < LOG2_ONE) by (nonlinear_arith)
            requires
                frac == ((x - p) * LOG2_ONE) / (p as int),
                x < 2 * p,
                p >= 1,
        {
            assert((x - p) * LOG2_ONE < p * LOG2_ONE) by (nonlinear_arith)
                requires x - p < p;
        }
    }
    e * LOG2_ONE + frac as u64
}

/// The fixed-point logarithm is exact at powers of two.
pub proof fn lemma_log2_fixed_exact(e: nat)
    requires
        e < 64,
    ensures
        log2_fixed_of(pow2(e) as u64) == e * LOG2_ONE,
{
    lemma2_to64();
    lemma_pow2_pos(e);
    if e < 63 {
        lemma_pow2_strictly_increases(e, 63);
    }
    lemma_pow2_unfold(e + 1);
    lemma_floor_log2(pow2(e), e);
    lemma2_to64_rest();
    assert(pow2(e) <= 0x8000_0000_0000_0000);
    let x = pow2(e) as u64;
    assert(x as nat == pow2(e));
    assert(floor_log2(x as nat) == e);
    assert((x - pow2(e)) * LOG2_ONE / (pow2(e) as int) == 0);
}

/// Larger byte counts never get a smaller logarithm.
pub proof fn lemma_log2_fixed_monotonic(x: u64, y: u64)
    requires
        x <= y,
    ensures
        log2_fixed_of(x) <= log2_fixed_of(y),
{
    if y > 0 {
        lemma_floor_log2_bounds(y as nat);
        let p = pow2(floor_log2(y as nat)) as int;
        assert(0 <= (y - p) * LOG2_ONE / p) by (nonlinear_arith)
            requires y >= p, p > 0;
    }
    if x > 0 {
        let ex = floor_log2(x as nat);
        let ey = floor_log2(y as nat);
        lemma_floor_log2_bounds(x as nat);
        lemma_floor_log2_bounds(y as nat);
        if ex < ey {
            lemma_pow2_unfold(ex + 1);
            if ex + 1 < ey {
                lemma_pow2_strictly_increases(ex + 1, ey);
            }
            let px = pow2(ex) as int;
            assert((x - px) * LOG2_ONE / px < LOG2_ONE as int) by (nonlinear_arith)
                requires 0 <= x - px < px, px > 0;
            assert(0 <= (y - pow2(ey)) * LOG2_ONE / (pow2(ey) as int)) by (nonlinear_arith)
                requires y >= pow2(ey), pow2(ey) > 0;
            assert(ex * LOG2_ONE + LOG2_ONE <= ey * LOG2_ONE) by (nonlinear_arith)
                requires ex + 1 <= ey;
            assert(log2_fixed_of(x) == ex * LOG2_ONE + (x - px) * LOG2_ONE / px);
            assert(log2_fixed_of(y) == ey * LOG2_ONE + (y - pow2(ey)) * LOG2_ONE / (pow2(ey) as int));
        } else {
            assert(ex == ey) by {
                if ey < ex {
                    lemma_pow2_unfold(ey + 1);
                    if ey + 1 < ex {
                        lemma_pow2_strictly_increases(ey + 1, ex);
                    }
                }
            }
            let p = pow2(ex) as int;
            assert((x - p) * LOG2_ONE / p <= (y - p) * LOG2_ONE / p) by (nonlinear_arith)
                requires x <= y, p > 0;
            assert(log2_fixed_of(x) == ex * LOG2_ONE + (x - p) * LOG2_ONE / p);
            assert(log2_fixed_of(y) == ey * LOG2_ONE + (y - p) * LOG2_ONE / p);
        }
    }
}

proof fn lemma_floor_log2_bounds(x: nat)
    requires
        x >= 1,
    ensures
        pow2(floor_log2(x)) <= x < 2 * pow2(floor_log2(x)),
        pow2(floor_log2(x)) > 0,
    decreases x,
{
    if x >= 2 {
        lemma_floor_log2_bounds(x / 2);
        lemma_pow2_unfold(floor_log2(x));
    } else {
        lemma2_to64();
    }
}

/// The fixed-point logarithm of a `u64` lies in `[0, 64 * LOG2_ONE)`.
pub proof fn lemma_log2_fixed_range(x: u64)
    ensures
        0 <= log2_fixed_of(x) < 64 * LOG2_ONE,
{
    if x > 0 {
        let e = floor_log2(x as nat);
        lemma_floor_log2_bounds(x as nat);
        lemma2_to64_rest();
        if e > 64 {
            lemma_pow2_strictly_increases(64, e);
        }
        let p = pow2(e) as int;
        assert(0 <= (x - p) * LOG2_ONE / p < LOG2_ONE as int) by (nonlinear_arith)
            requires 0 <= x - p < p, p > 0;
    }
}

} // verus!
