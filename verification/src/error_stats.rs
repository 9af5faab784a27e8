//! From timing errors to statistics.
//!
//! Averages and the unstable rate are given in thousandths. An average is
//! rounded toward zero. The unstable rate is rounded down, and the contract
//! says so without a square root: the result `r` is the one number with
//! `(r * n)^2 <= 10^8 * v < ((r + 1) * n)^2`, where `n` is the number of
//! errors and `v / n^2` their population variance.

use crate::difficulty::trunc_div;
use crate::hit_object::HITTABLE_RANGE;
use crate::models::InputError;
use vstd::prelude::*;

verus! {

/// The sum of the first `k` errors.
pub open spec fn total(errors: Seq<i32>, k: int) -> int
    decreases k,
{
    if k <= 0 {
        0
    } else {
        total(errors, k - 1) + errors[k - 1]
    }
}

/// The sum of the squares of the first `k` errors.
pub open spec fn total_sq(errors: Seq<i32>, k: int) -> int
    decreases k,
{
    if k <= 0 {
        0
    } else {
        total_sq(errors, k - 1) + errors[k - 1] * errors[k - 1]
    }
}

/// The sum of those of the first `k` errors that are late or exact.
pub open spec fn plus_total(errors: Seq<i32>, k: int) -> int
    decreases k,
{
    if k <= 0 {
        0
    } else if errors[k - 1] >= 0 {
        plus_total(errors, k - 1) + errors[k - 1]
    } else {
        plus_total(errors, k - 1)
    }
}

/// How many of the first `k` errors are late or exact.
pub open spec fn plus_count(errors: Seq<i32>, k: int) -> int
    decreases k,
{
    if k <= 0 {
        0
    } else if errors[k - 1] >= 0 {
        plus_count(errors, k - 1) + 1
    } else {
        plus_count(errors, k - 1)
    }
}

/// The sum of those of the first `k` errors that are early.
pub open spec fn minus_total(errors: Seq<i32>, k: int) -> int {
    total(errors, k) - plus_total(errors, k)
}

/// How many of the first `k` errors are early.
pub open spec fn minus_count(errors: Seq<i32>, k: int) -> int {
    if k <= 0 {
        0
    } else {
        k - plus_count(errors, k)
    }
}

/// The population variance of the errors times the square of their number:
/// `n * sum(e^2) - sum(e)^2`.
pub open spec fn variance_numerator(errors: Seq<i32>) -> int {
    let n = errors.len() as int;
    n * total_sq(errors, n) - total(errors, n) * total(errors, n)
}

/// Whether `rate` is the unstable rate of the errors in thousandths, rounded
/// down: `rate / 1000 <= 10 * sqrt(variance) < (rate + 1) / 1000`.
pub open spec fn is_unstable_rate(errors: Seq<i32>, rate: int) -> bool {
    let n = errors.len() as int;
    &&& rate >= 0
    &&& (rate * n) * (rate * n) <= 100_000_000 * variance_numerator(errors)
    &&& 100_000_000 * variance_numerator(errors) < ((rate + 1) * n) * ((rate + 1) * n)
}

/// An average in thousandths, rounded toward zero; zero over nothing.
pub open spec fn average(sum: int, count: int) -> int {
    if count <= 0 {
        0
    } else {
        trunc_div(1000 * sum, count)
    }
}

/// Whether every error is less than the hittable range either way, as the
/// error of every hit is. The statistics do not ask for it.
pub open spec fn within_range(errors: Seq<i32>) -> bool {
    forall|i: int| 0 <= i < errors.len() ==> -HITTABLE_RANGE < #[trigger] errors[i] < HITTABLE_RANGE
}

/// Statistics of the timing errors of a play.
#[derive(Copy, Clone, Debug, PartialEq, Eq, Structural)]
pub struct ErrorStatistics {
    /// Average of the early errors, in thousandths of a millisecond.
    pub minus_avg: i64,
    /// Average of the late and exact errors, in thousandths of a
    /// millisecond.
    pub plus_avg: i64,
    /// The least error: the earliest press.
    pub minus_max: i32,
    /// The greatest error: the latest press.
    pub plus_max: i32,
    /// Ten times the standard deviation of the errors, in thousandths.
    pub unstable_rate: u64,
}

/// The sum of the squared distances of the first `k` errors from `e` is not
/// negative.
proof fn lemma_spread_nonnegative(errors: Seq<i32>, k: int, e: int)
    requires
        0 <= k <= errors.len(),
    ensures
        total_sq(errors, k) - 2 * e * total(errors, k) + k * e * e >= 0,
    decreases k,
{
    if k > 0 {
        lemma_spread_nonnegative(errors, k - 1, e);
        let q = total_sq(errors, k - 1);
        let s = total(errors, k - 1);
        let x = errors[k - 1] as int;
        let a = total_sq(errors, k);
        let b = total(errors, k);
        assert(a - 2 * e * b + k * e * e >= 0) by (nonlinear_arith)
            requires
                a == q + x * x,
                b == s + x,
                q - 2 * e * s + (k - 1) * e * e >= 0,
        {
            assert(a - 2 * e * b + k * e * e == (q - 2 * e * s + (k - 1) * e * e) + (x - e) * (x
                - e));
            assert((x - e) * (x - e) >= 0);
        }
    } else {
        let a = total_sq(errors, k);
        let b = total(errors, k);
        assert(a - 2 * e * b + k * e * e >= 0) by (nonlinear_arith)
            requires
                a == 0,
                b == 0,
                k == 0,
        ;
    }
}

/// `k * sum(e^2) - sum(e)^2` over the first `k` errors is not negative.
proof fn lemma_variance_prefix_nonnegative(errors: Seq<i32>, k: int)
    requires
        0 <= k <= errors.len(),
    ensures
        k * total_sq(errors, k) - total(errors, k) * total(errors, k) >= 0,
    decreases k,
{
    if k > 0 {
        lemma_variance_prefix_nonnegative(errors, k - 1);
        let q = total_sq(errors, k - 1);
        let s = total(errors, k - 1);
        let x = errors[k - 1] as int;
        lemma_spread_nonnegative(errors, k - 1, x);
        let a = total_sq(errors, k);
        let b = total(errors, k);
        assert(k * a - b * b >= 0) by (nonlinear_arith)
            requires
                a == q + x * x,
                b == s + x,
                (k - 1) * q - s * s >= 0,
                q - 2 * x * s + (k - 1) * x * x >= 0,
        {
            assert(k * a - b * b == ((k - 1) * q - s * s) + (q - 2 * x * s + (k - 1) * x * x));
        }
    } else {
        let a = total_sq(errors, k);
        let b = total(errors, k);
        assert(k * a - b * b >= 0) by (nonlinear_arith)
            requires
                a == 0,
                b == 0,
                k == 0,
        ;
    }
}

/// The variance is never negative.
pub proof fn lemma_variance_nonnegative(errors: Seq<i32>)
    ensures
        variance_numerator(errors) >= 0,
{
    lemma_variance_prefix_nonnegative(errors, errors.len() as int);
}

/// A list of errors has at most one unstable rate.
pub proof fn lemma_unstable_rate_unique(errors: Seq<i32>, first: int, second: int)
    requires
        is_unstable_rate(errors, first),
        is_unstable_rate(errors, second),
    ensures
        first == second,
{
    let n = errors.len() as int;
    let x = 100_000_000 * variance_numerator(errors);
    if first < second {
        assert(((first + 1) * n) * ((first + 1) * n) <= (second * n) * (second * n))
            by (nonlinear_arith)
            requires
                0 <= first < second,
                n >= 0,
        ;
    } else if second < first {
        assert(((second + 1) * n) * ((second + 1) * n) <= (first * n) * (first * n))
            by (nonlinear_arith)
            requires
                0 <= second < first,
                n >= 0,
        ;
    }
}

/// Sums over `k` errors stay within what `k` numbers of 32 bits add up to.
proof fn lemma_totals_bounded(errors: Seq<i32>, k: int)
    requires
        0 <= k <= errors.len(),
    ensures
        -0x8000_0000 * k <= total(errors, k) <= 0x8000_0000 * k,
        0 <= total_sq(errors, k) <= 0x4000_0000_0000_0000 * k,
        0 <= plus_count(errors, k) <= k,
        minus_count(errors, k) == k - plus_count(errors, k),
        0 <= plus_total(errors, k) <= 0x8000_0000 * plus_count(errors, k),
        -0x8000_0000 * minus_count(errors, k) <= minus_total(errors, k) <= 0,
    decreases k,
{
    if k > 0 {
        lemma_totals_bounded(errors, k - 1);
        let x = errors[k - 1] as int;
        assert(0 <= x * x <= 0x4000_0000_0000_0000) by (nonlinear_arith)
            requires
                -0x8000_0000 <= x <= 0x8000_0000,
        ;
    }
}

/// The greatest number whose square is at most `x`.
fn integer_sqrt(x: u128) -> (r: u128)
    ensures
        r * r <= x < (r + 1) * (r + 1),
        r < 0x1_0000_0000_0000_0000,
{
    let mut lo: u128 = 0;
    let mut hi: u128 = 0x1_0000_0000_0000_0000;
    assert(x < hi * hi) by (nonlinear_arith)
        requires
            hi == 0x1_0000_0000_0000_0000,
            x <= u128::MAX,
    ;
    while hi - lo > 1
        invariant
            lo < hi <= 0x1_0000_0000_0000_0000,
            lo * lo <= x < hi * hi,
        decreases hi - lo,
    {
        let mid: u128 = lo + (hi - lo) / 2;
        assert(mid * mid <= 0xffff_ffff_ffff_ffff * 0xffff_ffff_ffff_ffff) by (nonlinear_arith)
            requires
                0 <= mid <= 0xffff_ffff_ffff_ffff,
        ;
        if mid * mid <= x {
            lo = mid;
        } else {
            hi = mid;
        }
    }
    lo
}

/// How far the square of `10000 * root + digits` lies above the square of
/// `10000 * root`.
spec fn reach(root: int, digits: int) -> int {
    20_000 * root * digits + digits * digits
}

/// The greatest number whose square is at most `100_000_000 * x`: the square
/// root of `x` with four decimal places, as a whole number of
/// ten-thousandths. `x` is at most `2^126`.
fn scaled_sqrt(x: u128) -> (t: u128)
    requires
        x <= 0x4000_0000_0000_0000_0000_0000_0000_0000,
    ensures
        t * t <= 100_000_000 * x < (t + 1) * (t + 1),
        t <= 0x1_0000_0000_0000_0000 * 10_000,
{
    let root: u128 = integer_sqrt(x);
    assert(root <= 0x8000_0000_0000_0000) by (nonlinear_arith)
        requires
            root * root <= x,
            x <= 0x4000_0000_0000_0000_0000_0000_0000_0000,
            root >= 0,
    ;
    assert(root * root <= 0x8000_0000_0000_0000 * 0x8000_0000_0000_0000) by (nonlinear_arith)
        requires
            0 <= root <= 0x8000_0000_0000_0000,
    ;
    let square: u128 = root * root;
    let rest: u128 = x - square;
    assert(rest <= 2 * root) by (nonlinear_arith)
        requires
            x < (root + 1) * (root + 1),
            rest == x - root * root,
    ;
    let goal: u128 = 100_000_000 * rest;
    let mut lo: u128 = 0;
    let mut hi: u128 = 10_000;
    assert(reach(root as int, 0) == 0) by (nonlinear_arith);
    assert(reach(root as int, 10_000) == 100_000_000 * (2 * root + 1)) by (nonlinear_arith);
    while hi - lo > 1
        invariant
            lo < hi <= 10_000,
            root <= 0x8000_0000_0000_0000,
            reach(root as int, lo as int) <= goal < reach(root as int, hi as int),
        decreases hi - lo,
    {
        let mid: u128 = lo + (hi - lo) / 2;
        let slope: u128 = 20_000 * root;
        assert(slope * mid <= 20_000 * 0x8000_0000_0000_0000 * 10_000) by (nonlinear_arith)
            requires
                0 <= slope <= 20_000 * 0x8000_0000_0000_0000,
                0 <= mid <= 10_000,
        ;
        assert(mid * mid <= 100_000_000) by (nonlinear_arith)
            requires
                0 <= mid <= 10_000,
        ;
        let here: u128 = slope * mid + mid * mid;
        assert(here == reach(root as int, mid as int));
        if here <= goal {
            lo = mid;
        } else {
            hi = mid;
        }
    }
    let t: u128 = 10_000 * root + lo;
    proof {
        let r = root as int;
        let d = lo as int;
        let tt = t as int;
        assert(tt * tt == 100_000_000 * (r * r) + reach(r, d)) by (nonlinear_arith)
            requires
                tt == 10_000 * r + d,
                reach(r, d) == 20_000 * r * d + d * d,
        ;
        assert((tt + 1) * (tt + 1) == 100_000_000 * (r * r) + reach(r, d + 1))
            by (nonlinear_arith)
            requires
                tt == 10_000 * r + d,
                reach(r, d + 1) == 20_000 * r * (d + 1) + (d + 1) * (d + 1),
        ;
        assert(100_000_000 * x == 100_000_000 * (r * r) + goal);
    }
    t
}

/// The quotient rounded toward zero.
fn divide(sum: i64, count: u64) -> (r: i64)
    requires
        count > 0,
        -0x8000_0000 * count <= sum <= 0x8000_0000 * count,
        count <= u32::MAX,
    ensures
        r == trunc_div(1000 * sum, count as int),
{
    let scaled: i128 = 1000 * (sum as i128);
    let c: i128 = count as i128;
    assert(-2_147_483_648_000 * c <= scaled <= 2_147_483_648_000 * c);
    if scaled >= 0 {
        let q: i128 = scaled / c;
        assert(0 <= q <= 2_147_483_648_000) by (nonlinear_arith)
            requires
                q == scaled / c,
                c >= 1,
                0 <= scaled <= 2_147_483_648_000 * c,
        ;
        q as i64
    } else {
        let opposite: i128 = -scaled;
        let q: i128 = opposite / c;
        assert(0 <= q <= 2_147_483_648_000) by (nonlinear_arith)
            requires
                q == opposite / c,
                c >= 1,
                0 <= opposite <= 2_147_483_648_000 * c,
        ;
        (-q) as i64
    }
}

impl ErrorStatistics {
    /// The statistics of a list of errors. Of an empty list there are none.
    pub fn new(list: &[i32]) -> (r: Result<ErrorStatistics, InputError>)
        requires
            list@.len() <= u32::MAX,
        ensures
            match r {
                Ok(s) => {
                    let n = list@.len() as int;
                    &&& n > 0
                    &&& s.plus_avg == average(plus_total(list@, n), plus_count(list@, n))
                    &&& s.minus_avg == average(minus_total(list@, n), minus_count(list@, n))
                    &&& forall|i: int|
                        0 <= i < n ==> s.minus_max <= #[trigger] list@[i] <= s.plus_max
                    &&& exists|i: int| 0 <= i < n && #[trigger] list@[i] == s.plus_max
                    &&& exists|i: int| 0 <= i < n && #[trigger] list@[i] == s.minus_max
                    &&& is_unstable_rate(list@, s.unstable_rate as int)
                },
                Err(e) => list@.len() == 0 && e == InputError::EmptyHitErrorSet,
            },
    {
        let n = list.len();
        if n == 0 {
            return Err(InputError::EmptyHitErrorSet);
        }
        let mut sum: i64 = 0;
        let mut sum_plus: i64 = 0;
        let mut count_plus: u64 = 0;
        let mut sum_sq: u128 = 0;
        let mut max: i32 = list[0];
        let mut min: i32 = list[0];
        let ghost mut at_max: int = 0;
        let ghost mut at_min: int = 0;
        let mut k: usize = 0;
        while k < n
            invariant
                k <= n,
                n == list@.len(),
                n <= u32::MAX,
                sum == total(list@, k as int),
                sum_plus == plus_total(list@, k as int),
                count_plus == plus_count(list@, k as int),
                sum_sq == total_sq(list@, k as int),
                forall|i: int| 0 <= i < k ==> min <= #[trigger] list@[i] <= max,
                0 <= at_max < n && list@[at_max] == max,
                0 <= at_min < n && list@[at_min] == min,
            decreases n - k,
        {
            let curr: i32 = list[k];
            proof {
                lemma_totals_bounded(list@, k as int);
                lemma_totals_bounded(list@, k as int + 1);
            }
            if curr > max {
                max = curr;
                proof {
                    at_max = k as int;
                }
            }
            if curr < min {
                min = curr;
                proof {
                    at_min = k as int;
                }
            }
            sum = sum + curr as i64;
            let c: i128 = curr as i128;
            assert(0 <= c * c <= 0x4000_0000_0000_0000) by (nonlinear_arith)
                requires
                    -0x8000_0000 <= c <= 0x8000_0000,
            ;
            sum_sq = sum_sq + (c * c) as u128;
            if curr >= 0 {
                sum_plus = sum_plus + curr as i64;
                count_plus = count_plus + 1;
            }
            k = k + 1;
        }
        proof {
            lemma_totals_bounded(list@, n as int);
            lemma_variance_nonnegative(list@);
        }
        let count: u128 = n as u128;
        let s: i128 = sum as i128;
        assert(0 <= s * s <= 0x8000_0000_0000_0000 * 0x8000_0000_0000_0000) by (nonlinear_arith)
            requires
                -0x8000_0000_0000_0000 <= s <= 0x8000_0000_0000_0000,
        ;
        assert(0 <= count * sum_sq <= count * (0x4000_0000_0000_0000 * count) <= 0x1_0000_0000
            * (0x4000_0000_0000_0000 * 0x1_0000_0000)) by (nonlinear_arith)
            requires
                0 <= count <= 0x1_0000_0000,
                0 <= sum_sq <= 0x4000_0000_0000_0000 * count,
        ;
        let spread: u128 = ((count * sum_sq) as i128 - s * s) as u128;
        assert(spread == variance_numerator(list@));
        let t: u128 = scaled_sqrt(spread);
        let rate: u128 = t / count;
        proof {
            let r = rate as int;
            let c = count as int;
            let tt = t as int;
            let v = spread as int;
            assert(r * c <= tt && tt < (r + 1) * c) by (nonlinear_arith)
                requires
                    c > 0,
                    r == tt / c,
                    tt >= 0,
            ;
            assert((r * c) * (r * c) <= tt * tt) by (nonlinear_arith)
                requires
                    0 <= r * c <= tt,
            ;
            assert((tt + 1) * (tt + 1) <= ((r + 1) * c) * ((r + 1) * c)) by (nonlinear_arith)
                requires
                    0 <= tt + 1 <= (r + 1) * c,
            ;
            // The rate is at most ten thousand times the widest error.
            let bound = 10_000 * 0x8000_0000 * c;
            assert(tt <= bound) by (nonlinear_arith)
                requires
                    tt * tt <= 100_000_000 * v,
                    v <= c * (0x4000_0000_0000_0000 * c),
                    bound == 10_000 * 0x8000_0000 * c,
                    tt >= 0,
                    c > 0,
            {
                assert(100_000_000 * v <= bound * bound);
                if tt > bound {
                    assert(tt * tt > bound * bound);
                }
            }
            assert(r <= 10_000 * 0x8000_0000) by (nonlinear_arith)
                requires
                    r * c <= tt,
                    tt <= 10_000 * 0x8000_0000 * c,
                    c > 0,
            ;
        }
        let minus_count: u64 = n as u64 - count_plus;
        let plus_avg: i64 = if count_plus == 0 {
            0
        } else {
            divide(sum_plus, count_plus)
        };
        let minus_avg: i64 = if minus_count == 0 {
            0
        } else {
            divide(sum - sum_plus, minus_count)
        };
        Ok(
            ErrorStatistics {
                minus_avg,
                plus_avg,
                minus_max: min,
                plus_max: max,
                unstable_rate: rate as u64,
            },
        )
    }
}

} // verus!
