//! Integer statistics over bucket totals: integer square root and the
//! population standard deviation, computed in fixed point with a wide
//! accumulator so that no floating point is needed.

use vstd::prelude::*;
use crate::reducer::{lemma_sum_nonneg, sum_spec};

verus! {

/// The most buckets a graph may hold. Together with `MAX_BUCKET_TOTAL`
/// this keeps the standard-deviation accumulator within `u128`.
pub const MAX_BUCKETS: usize = 65536;

/// The largest admitted per-bucket total: 2^39, nearly 17 years in
/// milliseconds, far above any realistic event log.
pub const MAX_BUCKET_TOTAL: u64 = 549755813888;

/// The floor of the square root, defined by digit recursion.
pub open spec fn isqrt_spec(x: int) -> int
    decreases x,
{
    if x <= 0 {
        0
    } else {
        let r = 2 * isqrt_spec(x / 4);
        if (r + 1) * (r + 1) <= x {
            r + 1
        } else {
            r
        }
    }
}

/// `isqrt_spec` really is the floor of the square root.
pub proof fn lemma_isqrt_correct(x: int)
    requires
        x >= 0,
    ensures
        isqrt_spec(x) >= 0,
        isqrt_spec(x) * isqrt_spec(x) <= x,
        (isqrt_spec(x) + 1) * (isqrt_spec(x) + 1) > x,
    decreases x,
{
    if x > 0 {
        lemma_isqrt_correct(x / 4);
        let r0 = isqrt_spec(x / 4);
        let r = 2 * r0;
        assert(0 <= x / 4 && 4 * (x / 4) <= x && x <= 4 * (x / 4) + 3) by {
            vstd::arithmetic::div_mod::lemma_fundamental_div_mod(x, 4);
        }
        assert(r * r <= x) by (nonlinear_arith)
            requires
                r == 2 * r0 && r0 * r0 <= x / 4 && 4 * (x / 4) <= x,
        ;
        assert((r + 2) * (r + 2) > x) by (nonlinear_arith)
            requires
                r == 2 * r0 && (r0 + 1) * (r0 + 1) > x / 4 && x <= 4 * (x / 4) + 3,
        ;
    }
}

/// The floor of the square root of `x`.
pub fn isqrt(x: u128) -> (r: u128)
    ensures
        r == isqrt_spec(x as int),
{
    proof {
        lemma_isqrt_correct(x as int);
    }
    let mut lo: u128 = 0;
    let mut hi: u128 = 0xFFFF_FFFF_FFFF_FFFF;
    proof {
        assert((hi + 1) * (hi + 1) > x) by (nonlinear_arith)
            requires
                hi == 0xFFFF_FFFF_FFFF_FFFFu128 && x <= u128::MAX,
        ;
    }
    while lo < hi
        invariant
            0 <= lo <= hi <= 0xFFFF_FFFF_FFFF_FFFF,
            lo * lo <= x,
            (hi + 1) * (hi + 1) > x,
        decreases hi - lo,
    {
        let mid = lo + (hi - lo + 1) / 2;
        assert(lo < mid <= hi);
        proof {
            assert(mid * mid <= u128::MAX) by (nonlinear_arith)
                requires
                    0 <= mid <= 0xFFFF_FFFF_FFFF_FFFFu128,
            ;
        }
        let sq = mid * mid;
        if sq <= x {
            lo = mid;
        } else {
            hi = mid - 1;
        }
    }
    proof {
        let s = isqrt_spec(x as int);
        assert(lo == s) by (nonlinear_arith)
            requires
                lo * lo <= x && (lo + 1) * (lo + 1) > x && s * s <= x && (s + 1) * (s + 1) > x && lo
                    >= 0 && s >= 0,
        ;
    }
    lo
}

/// The standard-deviation accumulator: the sum over the values of
/// `(len * value - sum)^2`, the numerator of `len^3 * variance`.
pub open spec fn sd_acc_spec(s: Seq<usize>, len: int, sum: int) -> int
    decreases s.len(),
{
    if s.len() == 0 {
        0
    } else {
        sd_acc_spec(s.drop_last(), len, sum) + (len * s.last() - sum) * (len * s.last() - sum)
    }
}

/// The population standard deviation of the values, scaled by 10^4 and
/// rounded down: `floor(10^4 * sqrt(acc / len^3))` where `acc` is
/// `sd_acc_spec`. An empty input yields zero.
pub open spec fn sd_e4_spec(s: Seq<usize>) -> int {
    if s.len() == 0 {
        0
    } else {
        let n = s.len() as int;
        isqrt_spec((sd_acc_spec(s, n, sum_spec(s)) * 100000000) / (n * n * n))
    }
}

proof fn lemma_sum_upper(s: Seq<usize>, bound: int)
    requires
        forall|i: int| 0 <= i < s.len() ==> s[i] <= bound,
        bound >= 0,
    ensures
        sum_spec(s) <= s.len() * bound,
    decreases s.len(),
{
    if s.len() > 0 {
        lemma_sum_upper(s.drop_last(), bound);
        assert(s.drop_last().len() * bound + bound == s.len() * bound) by (nonlinear_arith)
            requires
                s.len() >= 1 && s.drop_last().len() == s.len() - 1,
        ;
    }
}

proof fn lemma_sd_acc_bound(s: Seq<usize>, len: int, sum: int, cap: int)
    requires
        0 <= sum <= cap,
        0 <= len,
        forall|i: int| 0 <= i < s.len() ==> len * s[i] <= cap,
        forall|i: int| 0 <= i < s.len() ==> s[i] >= 0,
    ensures
        0 <= sd_acc_spec(s, len, sum) <= s.len() * (cap * cap),
    decreases s.len(),
{
    if s.len() == 0 {
    } else {
        lemma_sd_acc_bound(s.drop_last(), len, sum, cap);
        let d = len * s.last() - sum;
        assert(0 <= d * d <= cap * cap) by (nonlinear_arith)
            requires
                0 <= sum <= cap && 0 <= len * s.last() <= cap && d == len * s.last() - sum,
        ;
        assert(s.drop_last().len() * (cap * cap) + cap * cap == s.len() * (cap * cap))
            by (nonlinear_arith)
            requires
                s.len() >= 1 && s.drop_last().len() == s.len() - 1,
        ;
    }
}

/// Computes the population standard deviation of the dataset, scaled by
/// 10^4 and rounded down, via the identity
/// `sd = sqrt(sum_i (len * x_i - sum)^2 / len^3)`
/// with an exact 128-bit accumulator. The bounds on the bucket count and
/// the bucket totals keep every intermediate product inside `u128`;
/// division by a zero `len` is defined as zero.
pub fn standard_deviation(sum: usize, values: &[usize], len: usize) -> (r: u64)
    requires
        len == values@.len(),
        sum == sum_spec(values@),
        len <= MAX_BUCKETS,
        forall|i: int| 0 <= i < values@.len() ==> values@[i] <= MAX_BUCKET_TOTAL,
    ensures
        r == sd_e4_spec(values@),
{
    if len == 0 {
        return 0;
    }
    let ghost n = len as int;
    let ghost cap = n * (MAX_BUCKET_TOTAL as int);
    proof {
        lemma_sum_upper(values@, MAX_BUCKET_TOTAL as int);
        assert(n * (MAX_BUCKET_TOTAL as int) <= 65536 * (MAX_BUCKET_TOTAL as int))
            by (nonlinear_arith)
            requires
                0 <= n <= 65536,
        ;
        lemma_sum_nonneg(values@);
    }
    let mut acc: u128 = 0;
    let mut i: usize = 0;
    assert(values@.take(0) =~= Seq::<usize>::empty());
    while i < len
        invariant
            0 <= i <= len,
            len == values@.len(),
            len >= 1,
            len <= MAX_BUCKETS,
            n == len as int,
            cap == n * (MAX_BUCKET_TOTAL as int),
            0 <= sum <= cap,
            forall|j: int| 0 <= j < values@.len() ==> values@[j] <= MAX_BUCKET_TOTAL,
            acc == sd_acc_spec(values@.take(i as int), n, sum as int),
            acc <= i * (cap * cap),
        decreases len - i,
    {
        let v = values[i];
        proof {
            assert(n * v <= cap && n * v >= 0) by (nonlinear_arith)
                requires
                    0 <= v <= MAX_BUCKET_TOTAL && 0 <= n && cap == n * (MAX_BUCKET_TOTAL as int),
            ;
            assert(cap <= 36028797018963968) by (nonlinear_arith)
                requires
                    0 <= n <= 65536 && cap == n * (MAX_BUCKET_TOTAL as int),
            ;
        }
        let nv: u128 = (len as u128) * (v as u128);
        let d: u128 = if nv >= sum as u128 {
            nv - sum as u128
        } else {
            sum as u128 - nv
        };
        let ghost di = n * v - sum;
        proof {
            assert(d == if di >= 0 {
                di
            } else {
                -di
            });
            assert(d * d == di * di) by (nonlinear_arith)
                requires
                    d == if di >= 0 {
                        di
                    } else {
                        -di
                    },
            ;
            assert(d * d <= cap * cap) by (nonlinear_arith)
                requires
                    0 <= d <= cap,
            ;
            assert((i + 1) * (cap * cap) == i * (cap * cap) + cap * cap) by (nonlinear_arith);
            assert(i * (cap * cap) + cap * cap <= 65536 * (cap * cap)) by (nonlinear_arith)
                requires
                    0 <= i + 1 <= 65536 && cap * cap >= 0,
            ;
            assert(65536 * (cap * cap) <= u128::MAX) by (nonlinear_arith)
                requires
                    0 <= cap <= 36028797018963968,
            ;
            assert(values@.take(i + 1).drop_last() =~= values@.take(i as int));
            assert(values@.take(i + 1).last() == values@[i as int]);
        }
        acc = acc + d * d;
        i = i + 1;
    }
    proof {
        assert(values@.take(len as int) =~= values@);
    }
    let ghost m2 = (MAX_BUCKET_TOTAL as int) * (MAX_BUCKET_TOTAL as int);
    proof {
        assert(len as int * len as int <= 65536 * 65536 && len as int * len as int * len as int
            <= 65536 * 65536 * 65536) by (nonlinear_arith)
            requires
                0 <= len as int <= 65536,
        ;
    }
    let n3: u128 = (len as u128) * (len as u128) * (len as u128);
    proof {
        assert(n3 == n * n * n && 1 <= n3 as int <= 0x1000000000000) by (nonlinear_arith)
            requires
                1 <= n <= 65536 && n3 == (n as u128) * (n as u128) * (n as u128) && n == len as int,
        ;
        assert(n * (cap * cap) == (n * n * n) * m2) by (nonlinear_arith)
            requires
                cap == n * (MAX_BUCKET_TOTAL as int) && m2 == (MAX_BUCKET_TOTAL as int) * (
                MAX_BUCKET_TOTAL as int),
        ;
        assert(len as int * (cap * cap) == n * (cap * cap));
    }
    let q: u128 = acc / n3;
    let rem: u128 = acc % n3;
    proof {
        vstd::arithmetic::div_mod::lemma_fundamental_div_mod(acc as int, n3 as int);
        assert(acc as int <= n3 as int * m2);
        assert(q == acc as int / n3 as int);
        vstd::arithmetic::div_mod::lemma_div_is_ordered(acc as int, n3 as int * m2, n3 as int);
        assert((n3 as int * m2) / n3 as int == m2) by {
            vstd::arithmetic::div_mod::lemma_div_multiples_vanish(m2, n3 as int);
        }
        assert(m2 == 302231454903657293676544) by (nonlinear_arith)
            requires
                m2 == (MAX_BUCKET_TOTAL as int) * (MAX_BUCKET_TOTAL as int),
        ;
        assert(q as int * 100000000 <= m2 * 100000000) by (nonlinear_arith)
            requires
                0 <= q as int <= m2,
        ;
        assert((rem as int * 100000000) / n3 as int <= rem as int * 100000000) by {
            vstd::arithmetic::div_mod::lemma_div_nonincreasing(rem as int * 100000000, n3 as int);
        }
    }
    let scaled: u128 = q * 100000000 + (rem * 100000000) / n3;
    proof {
        assert(scaled as int == (acc as int * 100000000) / n3 as int) by {
            vstd::arithmetic::div_mod::lemma_hoist_over_denominator(
                rem as int * 100000000,
                q as int * 100000000,
                n3 as nat,
            );
            assert(rem as int * 100000000 + (q as int * 100000000) * n3 as int == acc as int
                * 100000000) by (nonlinear_arith)
                requires
                    acc as int == n3 as int * q as int + rem as int,
            ;
        }
    }
    let root = isqrt(scaled);
    proof {
        lemma_isqrt_correct(scaled as int);
        assert(isqrt_spec(scaled as int) < 0x10000000000000000) by (nonlinear_arith)
            requires
                isqrt_spec(scaled as int) * isqrt_spec(scaled as int) <= scaled as int <= u128::MAX
                    && isqrt_spec(scaled as int) >= 0,
        ;
    }
    root as u64
}

} // verus!
