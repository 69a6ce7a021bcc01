//! Fixed-point statistics for the anomaly detector.
//!
//! All inputs are metric values scaled by [`crate::fixed::SCALE`] and bounded
//! by [`MAX_METRIC`].  Every formula — mean, sample standard deviation,
//! natural-log transform, Gaussian kernel density with Silverman's bandwidth
//! — is defined as a spec-level fixed-point computation with explicit floor
//! divisions, and each executable function is proved to compute exactly its
//! spec.

use vstd::prelude::*;

use vstd::arithmetic::div_mod::{
    lemma_div_denominator,
    lemma_div_is_ordered,
    lemma_div_is_ordered_by_denominator,
    lemma_multiply_divide_le,
};

use crate::fixed::SCALE;

verus! {

/// Fewest prior samples the detector scores against.
pub const MIN_SAMPLES: usize = 10;

/// Largest metric value the analysis accepts (one thousand million units,
/// scaled): wall-clock medians and counter readings stay far below this.
pub const MAX_METRIC: i64 = 1_000_000_000_000_000;

/// Most history records one series may hold.
pub const MAX_SAMPLES: usize = 100_000;

/// `ln 2`, scaled.
pub const LN2: u64 = 693_147;

/// `1 / e`, scaled.
pub const INV_E: u64 = 367_879;

/// `sqrt(2 * pi)`, scaled.
pub const RT2PI: u64 = 2_506_628;

/// Density reported when the bandwidth degenerates to zero and the kernel
/// estimate is undefined.
pub const KDE_FALLBACK: i64 = 1000 * 1_000_000;

/// Every value is a plausible metric: nonnegative and bounded.
pub open spec fn all_in_range(s: Seq<i64>) -> bool {
    forall|i: int| 0 <= i < s.len() ==> 0 <= #[trigger] s[i] <= MAX_METRIC
}

/// The sum of a series.
pub open spec fn spec_sum(s: Seq<i64>) -> int
    decreases s.len(),
{
    if s.len() == 0 {
        0
    } else {
        spec_sum(s.drop_last()) + s.last()
    }
}

/// The mean of a nonempty series, rounded down.
pub open spec fn spec_mean(s: Seq<i64>) -> int {
    spec_sum(s) / (s.len() as int)
}

/// The sum of squared deviations from `mu`.
pub open spec fn spec_sum_sq_dev(s: Seq<i64>, mu: int) -> int
    decreases s.len(),
{
    if s.len() == 0 {
        0
    } else {
        spec_sum_sq_dev(s.drop_last(), mu) + (s.last() - mu) * (s.last() - mu)
    }
}

/// The sample variance (squared-deviation sum over `n - 1`), rounded down.
pub open spec fn spec_variance(s: Seq<i64>) -> int {
    spec_sum_sq_dev(s, spec_mean(s)) / (s.len() - 1)
}

/// The integer square root: the largest `r` with `r * r <= v`.
pub open spec fn spec_isqrt(v: nat) -> nat
    decreases v,
{
    if v == 0 {
        0
    } else {
        let p = spec_isqrt((v - 1) as nat);
        if (p + 1) * (p + 1) <= v {
            p + 1
        } else {
            p
        }
    }
}

/// The sample standard deviation: the integer square root of the variance.
/// Both carry the same scale, since the variance of scaled values carries
/// the scale squared.
pub open spec fn spec_std_dev(s: Seq<i64>) -> nat {
    spec_isqrt(spec_variance(s) as nat)
}

/// `spec_isqrt` is characterized by its two-sided bound.
pub proof fn lemma_isqrt_bounds(v: nat)
    ensures
        spec_isqrt(v) * spec_isqrt(v) <= v,
        v < (spec_isqrt(v) + 1) * (spec_isqrt(v) + 1),
    decreases v,
{
    if v == 0 {
        assert(spec_isqrt(0) == 0);
        assert(v < (spec_isqrt(v) + 1) * (spec_isqrt(v) + 1)) by (nonlinear_arith)
            requires
                v == 0,
                spec_isqrt(v) == 0,
        ;
    } else {
        lemma_isqrt_bounds((v - 1) as nat);
        let p = spec_isqrt((v - 1) as nat);
        if (p + 1) * (p + 1) <= v {
            assert(spec_isqrt(v) == p + 1);
            assert(v < (p + 2) * (p + 2)) by (nonlinear_arith)
                requires
                    v >= 1,
                    v - 1 < (p + 1) * (p + 1),
                    0 <= p,
            ;
            assert(v < (spec_isqrt(v) + 1) * (spec_isqrt(v) + 1)) by (nonlinear_arith)
                requires
                    spec_isqrt(v) == p + 1,
                    v < (p + 2) * (p + 2),
                    0 <= p,
            ;
        } else {
            assert(spec_isqrt(v) == p);
            assert(p * p <= v - 1);
            assert(v < (spec_isqrt(v) + 1) * (spec_isqrt(v) + 1)) by (nonlinear_arith)
                requires
                    spec_isqrt(v) == p,
                    v < (p + 1) * (p + 1),
                    0 <= p,
            ;
        }
    }
}

/// Any `r` within the two-sided bound is the integer square root.
pub proof fn lemma_isqrt_unique(v: nat, r: nat)
    requires
        r * r <= v,
        v < (r + 1) * (r + 1),
    ensures
        r == spec_isqrt(v),
{
    lemma_isqrt_bounds(v);
    let s = spec_isqrt(v);
    if r < s {
        assert((r + 1) * (r + 1) <= s * s) by (nonlinear_arith)
            requires
                r + 1 <= s,
                0 <= r,
        ;
    }
    if s < r {
        assert((s + 1) * (s + 1) <= r * r) by (nonlinear_arith)
            requires
                s + 1 <= r,
                0 <= s,
        ;
    }
}

/// Computes the integer square root by bisection.
pub fn isqrt_u128(v: u128) -> (r: u64)
    requires
        v < (1u128 << 126),
    ensures
        r as nat == spec_isqrt(v as nat),
{
    if v == 0 {
        proof {
            assert(0 * 0 <= 0 && 0 < (0 + 1) * (0 + 1)) by (nonlinear_arith);
            lemma_isqrt_unique(0, 0);
        }
        return 0;
    }
    let mut lo: u128 = 0;
    let mut hi: u128 = 1u128 << 63;
    proof {
        assert((1u128 << 63) == 0x8000_0000_0000_0000u128) by (bit_vector);
        assert((1u128 << 126) == 0x4000_0000_0000_0000_0000_0000_0000_0000u128) by (bit_vector);
        assert(hi * hi > v) by (nonlinear_arith)
            requires
                hi == 0x8000_0000_0000_0000u128,
                v < 0x4000_0000_0000_0000_0000_0000_0000_0000u128,
        ;
    }
    while hi - lo > 1
        invariant
            lo < hi,
            hi <= 0x8000_0000_0000_0000u128,
            (lo as nat) * (lo as nat) <= v as nat,
            (hi as nat) * (hi as nat) > v as nat,
        decreases hi - lo,
    {
        let mid = lo + (hi - lo) / 2;
        proof {
            assert(lo < mid < hi);
            assert(mid * mid <= 0x4000_0000_0000_0000_0000_0000_0000_0000u128)
                by (nonlinear_arith)
                requires
                    0 <= mid <= 0x8000_0000_0000_0000u128,
            ;
        }
        if mid * mid <= v {
            lo = mid;
        } else {
            hi = mid;
        }
    }
    proof {
        assert(hi == lo + 1);
        lemma_isqrt_unique(v as nat, lo as nat);
        assert(lo * lo <= v);
        assert(lo < 0x1_0000_0000_0000_0000u128) by (nonlinear_arith)
            requires
                (lo as nat) * (lo as nat) <= v as nat,
                v < 0x4000_0000_0000_0000_0000_0000_0000_0000u128,
        ;
    }
    lo as u64
}

/// The sum of a bounded series is bounded.
proof fn lemma_sum_bounds(s: Seq<i64>)
    requires
        all_in_range(s),
    ensures
        0 <= spec_sum(s) <= s.len() * MAX_METRIC,
    decreases s.len(),
{
    if s.len() > 0 {
        assert(all_in_range(s.drop_last()));
        lemma_sum_bounds(s.drop_last());
        assert((s.len() - 1) * MAX_METRIC + MAX_METRIC == s.len() * MAX_METRIC)
            by (nonlinear_arith);
    }
}

/// The mean of a bounded series is bounded.
pub proof fn lemma_mean_bounds(s: Seq<i64>)
    requires
        all_in_range(s),
        s.len() > 0,
    ensures
        0 <= spec_mean(s) <= MAX_METRIC,
{
    lemma_sum_bounds(s);
    lemma_multiply_divide_le(spec_sum(s), s.len() as int, MAX_METRIC as int);
    assert(s.len() * MAX_METRIC == (s.len() as int) * (MAX_METRIC as int));
}

/// Computes the mean of a nonempty bounded series.
pub fn mean_fx(values: &Vec<i64>) -> (r: i64)
    requires
        0 < values@.len() <= MAX_SAMPLES,
        all_in_range(values@),
    ensures
        r == spec_mean(values@),
        0 <= r <= MAX_METRIC,
{
    let mut acc: i128 = 0;
    let mut i: usize = 0;
    while i < values.len()
        invariant
            i <= values@.len(),
            values@.len() <= MAX_SAMPLES,
            all_in_range(values@),
            acc == spec_sum(values@.subrange(0, i as int)),
            0 <= acc <= (i as int) * MAX_METRIC,
        decreases values@.len() - i,
    {
        proof {
            assert(values@.subrange(0, i + 1).drop_last() =~= values@.subrange(0, i as int));
            assert(values@.subrange(0, i + 1).last() == values@[i as int]);
            assert((i as int) * MAX_METRIC + MAX_METRIC == (i + 1) * MAX_METRIC)
                by (nonlinear_arith);
        }
        acc = acc + values[i] as i128;
        i = i + 1;
    }
    proof {
        assert(values@.subrange(0, values@.len() as int) =~= values@);
        lemma_mean_bounds(values@);
        vstd::arithmetic::div_mod::lemma_div_pos_is_pos(acc as int, values@.len() as int);
    }
    (acc / (values.len() as i128)) as i64
}

/// The squared-deviation sum of a bounded series around a bounded center is
/// bounded.
proof fn lemma_sum_sq_dev_bounds(s: Seq<i64>, mu: int)
    requires
        all_in_range(s),
        0 <= mu <= MAX_METRIC,
    ensures
        0 <= spec_sum_sq_dev(s, mu) <= s.len() * ((MAX_METRIC as int) * (MAX_METRIC as int)),
    decreases s.len(),
{
    let m2 = (MAX_METRIC as int) * (MAX_METRIC as int);
    if s.len() > 0 {
        assert(all_in_range(s.drop_last()));
        lemma_sum_sq_dev_bounds(s.drop_last(), mu);
        let d = s.last() - mu;
        assert(0 <= d * d <= m2) by (nonlinear_arith)
            requires
                -MAX_METRIC <= d <= MAX_METRIC,
                m2 == (MAX_METRIC as int) * (MAX_METRIC as int),
        ;
        assert((s.len() - 1) * m2 + m2 == s.len() * m2) by (nonlinear_arith);
    }
}

/// The sample variance around a given center, rounded down.
pub open spec fn spec_variance_with(s: Seq<i64>, mu: int) -> int {
    spec_sum_sq_dev(s, mu) / (s.len() - 1)
}

/// The sample standard deviation around a given center.
pub open spec fn spec_std_dev_with(s: Seq<i64>, mu: int) -> nat {
    spec_isqrt(spec_variance_with(s, mu) as nat)
}

/// Computes the sample standard deviation of a bounded series of at least
/// two values, as the integer square root of the floor variance.
pub fn std_dev_fx(values: &Vec<i64>) -> (r: i64)
    requires
        2 <= values@.len() <= MAX_SAMPLES,
        all_in_range(values@),
    ensures
        r as nat == spec_std_dev(values@),
        0 <= r <= 2 * MAX_METRIC,
{
    let mu = mean_fx(values);
    let r = std_dev_with_mean_fx(values, mu);
    r
}

/// Computes the sample standard deviation around the given center `mu`.
pub fn std_dev_with_mean_fx(values: &Vec<i64>, mu: i64) -> (r: i64)
    requires
        2 <= values@.len() <= MAX_SAMPLES,
        all_in_range(values@),
        0 <= mu <= MAX_METRIC,
    ensures
        r as nat == spec_std_dev_with(values@, mu as int),
        0 <= r <= 2 * MAX_METRIC,
{
    let mut acc: u128 = 0;
    let mut i: usize = 0;
    while i < values.len()
        invariant
            i <= values@.len(),
            values@.len() <= MAX_SAMPLES,
            all_in_range(values@),
            0 <= mu <= MAX_METRIC,
            acc == spec_sum_sq_dev(values@.subrange(0, i as int), mu as int),
            acc <= (i as int) * ((MAX_METRIC as int) * (MAX_METRIC as int)),
            acc <= (MAX_SAMPLES as int) * ((MAX_METRIC as int) * (MAX_METRIC as int)),
        decreases values@.len() - i,
    {
        proof {
            assert(values@.subrange(0, i + 1).drop_last() =~= values@.subrange(0, i as int));
            assert(values@.subrange(0, i + 1).last() == values@[i as int]);
        }
        let v = values[i];
        let d: i64 = if v >= mu {
            v - mu
        } else {
            mu - v
        };
        proof {
            let dd = values@[i as int] - mu;
            assert((d as int) * (d as int) == dd * dd) by (nonlinear_arith)
                requires
                    d == (if dd >= 0 {
                        dd
                    } else {
                        -dd
                    }),
            ;
            assert(0 <= (d as int) * (d as int) <= (MAX_METRIC as int) * (MAX_METRIC as int))
                by (nonlinear_arith)
                requires
                    0 <= d <= MAX_METRIC,
            ;
            assert((i as int) * ((MAX_METRIC as int) * (MAX_METRIC as int)) + (MAX_METRIC as int)
                * (MAX_METRIC as int) == (i + 1) * ((MAX_METRIC as int) * (MAX_METRIC as int)))
                by (nonlinear_arith);
        }
        acc = acc + (d as u128) * (d as u128);
        i = i + 1;
    }
    proof {
        assert(values@.subrange(0, values@.len() as int) =~= values@);
    }
    let n1 = (values.len() - 1) as u128;
    let var = acc / n1;
    proof {
        let n = values@.len() as int;
        let m2 = (MAX_METRIC as int) * (MAX_METRIC as int);
        assert(acc <= n * m2);
        assert(n * m2 <= (n - 1) * (2 * m2)) by (nonlinear_arith)
            requires
                2 <= n,
                0 <= m2,
        ;
        lemma_multiply_divide_le(acc as int, n - 1, 2 * m2);
        assert(var <= 2 * m2);
        assert((1u128 << 126) == 0x4000_0000_0000_0000_0000_0000_0000_0000u128) by (bit_vector);
        assert(var < (1u128 << 126)) by (nonlinear_arith)
            requires
                0 <= var <= 2 * ((MAX_METRIC as int) * (MAX_METRIC as int)),
                (1u128 << 126) == 0x4000_0000_0000_0000_0000_0000_0000_0000u128,
        ;
    }
    let r = isqrt_u128(var);
    proof {
        lemma_isqrt_bounds(var as nat);
        assert(r <= 2 * MAX_METRIC) by (nonlinear_arith)
            requires
                (r as nat) * (r as nat) <= var as nat,
                var <= 2 * ((MAX_METRIC as int) * (MAX_METRIC as int)),
                r >= 0,
        ;
    }
    r as i64
}

/// Largest value the log transform produces: `ln(2^51)` is below `36`
/// units, far under this.
pub const LOG_MAX: u64 = 60_000_000;

/// How many times `v` halves before dropping below two units.
pub open spec fn spec_shift_count(v: nat) -> nat
    decreases v,
{
    if v < 2 * SCALE {
        0
    } else {
        proof {
            vstd::arithmetic::div_mod::lemma_div_decreases(v as int, 2);
        }
        1 + spec_shift_count(v / 2)
    }
}

/// The value `v` halves into: the member of `[SCALE, 2 * SCALE)` it reaches.
pub open spec fn spec_norm_val(v: nat) -> nat
    decreases v,
{
    if v < 2 * SCALE {
        v
    } else {
        proof {
            vstd::arithmetic::div_mod::lemma_div_decreases(v as int, 2);
        }
        spec_norm_val(v / 2)
    }
}

/// Halving from at least one unit lands inside `[SCALE, 2 * SCALE)`.
pub proof fn lemma_norm_val_bounds(v: nat)
    requires
        v >= SCALE,
    ensures
        SCALE <= spec_norm_val(v) < 2 * SCALE,
    decreases v,
{
    if v >= 2 * SCALE {
        lemma_div_is_ordered(2 * (SCALE as int), v as int, 2);
        assert((2 * (SCALE as int)) / 2 == SCALE as int);
        vstd::arithmetic::div_mod::lemma_div_decreases(v as int, 2);
        lemma_norm_val_bounds(v / 2);
    }
}

/// The natural log of the normalized mantissa `m` in `[SCALE, 2 * SCALE)`,
/// by the arctanh series in `z = (m - 1)/(m + 1)`:
/// `ln m = 2 (z + z^3/3 + z^5/5 + z^7/7)`, with fixed-point floors.
pub open spec fn spec_ln_norm(m: nat) -> nat {
    let z = (m - SCALE) * SCALE / (m + SCALE);
    let zsq = z * z / (SCALE as int);
    let u3 = z * zsq / (SCALE as int);
    let u5 = u3 * zsq / (SCALE as int);
    let u7 = u5 * zsq / (SCALE as int);
    (2 * (z + u3 / 3 + u5 / 5 + u7 / 7)) as nat
}

/// `ln(1 + x)` in fixed point: normalize `1 + x` into `[1, 2)` by halvings,
/// add one `ln 2` per halving to the mantissa's series log.
pub open spec fn spec_ln_1p(x: nat) -> nat {
    spec_shift_count((x + SCALE) as nat) * (LN2 as nat) + spec_ln_norm(
        spec_norm_val((x + SCALE) as nat),
    )
}

/// Multiplies two small fixed-point values and divides, exactly as the
/// specs' floor expressions do.
fn muldiv(a: u64, b: u64, d: u64) -> (r: u64)
    requires
        a <= 10_000_000,
        b <= 10_000_000,
        d >= 1,
    ensures
        r as int == (a as int) * (b as int) / (d as int),
{
    proof {
        assert((a as int) * (b as int) <= 100_000_000_000_000) by (nonlinear_arith)
            requires
                a <= 10_000_000,
                b <= 10_000_000,
        ;
    }
    a * b / d
}

/// Dividing a product by a larger factor stays below the other factor.
proof fn lemma_mul_div_le(a: int, b: int, c: int)
    requires
        0 <= a,
        0 <= b <= c,
        0 < c,
    ensures
        0 <= a * b / c <= a,
{
    assert(a * b <= c * a) by (nonlinear_arith)
        requires
            0 <= a,
            0 <= b <= c,
    ;
    lemma_multiply_divide_le(a * b, c, a);
    vstd::arithmetic::div_mod::lemma_div_pos_is_pos(a * b, c);
}

/// The series log of a mantissa is below eight units.
pub proof fn lemma_ln_norm_bounds(m: nat)
    requires
        SCALE <= m < 2 * SCALE,
    ensures
        spec_ln_norm(m) <= 8 * SCALE,
{
    let z = (m - SCALE) * SCALE / (m + SCALE);
    let zsq = z * z / (SCALE as int);
    let u3 = z * zsq / (SCALE as int);
    let u5 = u3 * zsq / (SCALE as int);
    let u7 = u5 * zsq / (SCALE as int);
    lemma_mul_div_le((m - SCALE) as int, SCALE as int, (m + SCALE) as int);
    assert(z <= m - SCALE);
    lemma_mul_div_le(z, z, SCALE as int);
    lemma_mul_div_le(z, zsq, SCALE as int);
    lemma_mul_div_le(u3, zsq, SCALE as int);
    lemma_mul_div_le(u5, zsq, SCALE as int);
    lemma_div_is_ordered(u3, z, 3);
    lemma_div_is_ordered(u5, z, 5);
    lemma_div_is_ordered(u7, z, 7);
    lemma_div_is_ordered_by_denominator(z, 1, 3);
    lemma_div_is_ordered_by_denominator(z, 1, 5);
    lemma_div_is_ordered_by_denominator(z, 1, 7);
}

/// Computes `ln(1 + x)` in fixed point.
pub fn ln_1p_fx(x: u64) -> (r: u64)
    requires
        x <= MAX_METRIC as u64,
    ensures
        r == spec_ln_1p(x as nat),
        r <= LOG_MAX,
{
    let s: u64 = SCALE as u64;
    let v: u64 = x + s;
    let mut m: u64 = v;
    let mut c: u64 = 0;
    proof {
        vstd::arithmetic::power2::lemma2_to64();
        assert(vstd::arithmetic::power2::pow2(0) == 1);
        assert(v as nat / 1 == v as nat) by (nonlinear_arith);
    }
    while m >= 2 * s
        invariant
            s == SCALE as u64,
            v <= MAX_METRIC as u64 + s,
            m as nat == v as nat / vstd::arithmetic::power2::pow2(c as nat),
            spec_norm_val(v as nat) == spec_norm_val(m as nat),
            spec_shift_count(v as nat) == c + spec_shift_count(m as nat),
            s <= m,
            c <= 51,
        decreases m,
    {
        proof {
            vstd::arithmetic::power2::lemma2_to64();
            let p = vstd::arithmetic::power2::pow2(c as nat);
            vstd::arithmetic::power2::lemma_pow2_pos(c as nat);
            lemma_div_denominator(v as int, p as int, 2);
            assert(vstd::arithmetic::power2::pow2((c + 1) as nat) == p * 2) by {
                vstd::arithmetic::power2::lemma_pow2_adds(c as nat, 1);
                vstd::arithmetic::power2::lemma2_to64();
            }
            // the next power of two still divides into something at least
            // one unit big, so the exponent stays small
            lemma_div_is_ordered(2 * (SCALE as int), m as int, 2);
            assert((2 * (SCALE as int)) / 2 == SCALE as int);
            vstd::arithmetic::div_mod::lemma_div_decreases(m as int, 2);
            if c + 1 > 51 {
                vstd::arithmetic::power2::lemma_pow2_strictly_increases(51, (c + 1) as nat);
                vstd::arithmetic::power2::lemma2_to64_rest();
                assert(vstd::arithmetic::power2::pow2(51) == 0x8_0000_0000_0000);
                vstd::arithmetic::div_mod::lemma_div_pos_is_pos(
                    v as int,
                    (p * 2) as int,
                );
                assert((v as nat) / ((p * 2) as nat) >= SCALE as nat);
                assert(v as nat >= (p * 2) * (SCALE as nat)) by (nonlinear_arith)
                    requires
                        (v as nat) / ((p * 2) as nat) >= SCALE as nat,
                        p * 2 > 0,
                ;
                assert(false) by (nonlinear_arith)
                    requires
                        v as nat >= (p * 2) * (SCALE as nat),
                        p * 2 > 0x8_0000_0000_0000,
                        v <= MAX_METRIC as u64 + SCALE as u64,
                ;
            }
        }
        m = m / 2;
        c = c + 1;
    }
    proof {
        lemma_norm_val_bounds(v as nat);
    }
    let z: u64 = muldiv(m - s, s, m + s);
    proof {
        lemma_mul_div_le((m - s) as int, s as int, (m + s) as int);
    }
    let zsq: u64 = muldiv(z, z, s);
    proof {
        lemma_mul_div_le(z as int, z as int, s as int);
    }
    let u3: u64 = muldiv(z, zsq, s);
    proof {
        lemma_mul_div_le(z as int, zsq as int, s as int);
    }
    let u5: u64 = muldiv(u3, zsq, s);
    proof {
        lemma_mul_div_le(u3 as int, zsq as int, s as int);
    }
    let u7: u64 = muldiv(u5, zsq, s);
    proof {
        lemma_mul_div_le(u5 as int, zsq as int, s as int);
        lemma_ln_norm_bounds(m as nat);
    }
    let series: u64 = 2 * (z + u3 / 3 + u5 / 5 + u7 / 7);
    c * LN2 + series
}

/// `e^(-n)` in fixed point: one unit shrunk through `n` multiplications by
/// `1/e`.
pub open spec fn spec_pow_inv_e(n: nat) -> nat
    decreases n,
{
    if n == 0 {
        SCALE as nat
    } else {
        spec_pow_inv_e((n - 1) as nat) * (INV_E as nat) / (SCALE as nat)
    }
}

/// The inverse-power chain never exceeds one unit.
pub proof fn lemma_pow_inv_e_le(n: nat)
    ensures
        spec_pow_inv_e(n) <= SCALE,
    decreases n,
{
    if n > 0 {
        lemma_pow_inv_e_le((n - 1) as nat);
        lemma_mul_div_le(
            spec_pow_inv_e((n - 1) as nat) as int,
            INV_E as int,
            SCALE as int,
        );
    }
}

/// `e^(-r)` for a fraction `r` of less than one unit: the Taylor series
/// through the eighth term, with fixed-point floors, clamped at zero.
pub open spec fn spec_exp_frac(r: nat) -> nat {
    let a1 = r as int;
    let a2 = a1 * r / (2 * SCALE);
    let a3 = a2 * r / (3 * SCALE);
    let a4 = a3 * r / (4 * SCALE);
    let a5 = a4 * r / (5 * SCALE);
    let a6 = a5 * r / (6 * SCALE);
    let a7 = a6 * r / (7 * SCALE);
    let a8 = a7 * r / (8 * SCALE);
    let total = SCALE - a1 + a2 - a3 + a4 - a5 + a6 - a7 + a8;
    if total < 0 {
        0
    } else {
        total as nat
    }
}

/// Each Taylor term shrinks, so the alternating total stays within one unit.
pub proof fn lemma_exp_frac_le(r: nat)
    requires
        r < SCALE,
    ensures
        spec_exp_frac(r) <= SCALE,
{
    let a1 = r as int;
    let a2 = a1 * r / (2 * SCALE);
    let a3 = a2 * r / (3 * SCALE);
    let a4 = a3 * r / (4 * SCALE);
    let a5 = a4 * r / (5 * SCALE);
    let a6 = a5 * r / (6 * SCALE);
    let a7 = a6 * r / (7 * SCALE);
    let a8 = a7 * r / (8 * SCALE);
    lemma_mul_div_le(a1, r as int, 2 * SCALE);
    lemma_mul_div_le(a2, r as int, 3 * SCALE);
    lemma_mul_div_le(a3, r as int, 4 * SCALE);
    lemma_mul_div_le(a4, r as int, 5 * SCALE);
    lemma_mul_div_le(a5, r as int, 6 * SCALE);
    lemma_mul_div_le(a6, r as int, 7 * SCALE);
    lemma_mul_div_le(a7, r as int, 8 * SCALE);
}

/// `e^(-t)` in fixed point: zero once `t` reaches twenty units (the true
/// value is below one millionth there), otherwise the integer-part chain
/// times the fractional-part series.
pub open spec fn spec_exp_neg(t: nat) -> nat {
    if t >= 20 * SCALE {
        0
    } else {
        spec_pow_inv_e(t / (SCALE as nat)) * spec_exp_frac(t % (SCALE as nat)) / (SCALE as nat)
    }
}

/// The exponential never exceeds one unit.
pub proof fn lemma_exp_neg_le(t: nat)
    ensures
        spec_exp_neg(t) <= SCALE,
{
    if t < 20 * SCALE {
        lemma_pow_inv_e_le(t / (SCALE as nat));
        vstd::arithmetic::div_mod::lemma_mod_division_less_than_divisor(
            t as int,
            SCALE as int,
        );
        lemma_exp_frac_le(t % (SCALE as nat));
        lemma_mul_div_le(
            spec_pow_inv_e(t / (SCALE as nat)) as int,
            spec_exp_frac(t % (SCALE as nat)) as int,
            SCALE as int,
        );
    }
}

/// Computes `e^(-t)` in fixed point.
pub fn exp_neg_fx(t: u64) -> (r: u64)
    ensures
        r == spec_exp_neg(t as nat),
        r <= SCALE as u64,
{
    let s: u64 = SCALE as u64;
    if t >= 20 * s {
        return 0;
    }
    let n: u64 = t / s;
    let mut acc: u64 = s;
    let mut i: u64 = 0;
    while i < n
        invariant
            s == SCALE as u64,
            i <= n,
            acc == spec_pow_inv_e(i as nat),
            acc <= s,
        decreases n - i,
    {
        proof {
            lemma_mul_div_le(acc as int, INV_E as int, SCALE as int);
        }
        acc = muldiv(acc, INV_E, s);
        i = i + 1;
    }
    let rr: u64 = t % s;
    let a1: u64 = rr;
    let a2: u64 = muldiv(a1, rr, 2 * s);
    proof {
        lemma_mul_div_le(a1 as int, rr as int, 2 * SCALE);
    }
    let a3: u64 = muldiv(a2, rr, 3 * s);
    proof {
        lemma_mul_div_le(a2 as int, rr as int, 3 * SCALE);
    }
    let a4: u64 = muldiv(a3, rr, 4 * s);
    proof {
        lemma_mul_div_le(a3 as int, rr as int, 4 * SCALE);
    }
    let a5: u64 = muldiv(a4, rr, 5 * s);
    proof {
        lemma_mul_div_le(a4 as int, rr as int, 5 * SCALE);
    }
    let a6: u64 = muldiv(a5, rr, 6 * s);
    proof {
        lemma_mul_div_le(a5 as int, rr as int, 6 * SCALE);
    }
    let a7: u64 = muldiv(a6, rr, 7 * s);
    proof {
        lemma_mul_div_le(a6 as int, rr as int, 7 * SCALE);
    }
    let a8: u64 = muldiv(a7, rr, 8 * s);
    proof {
        lemma_mul_div_le(a7 as int, rr as int, 8 * SCALE);
    }
    let total: i64 = s as i64 - a1 as i64 + a2 as i64 - a3 as i64 + a4 as i64 - a5 as i64
        + a6 as i64 - a7 as i64 + a8 as i64;
    let frac: u64 = if total < 0 {
        0
    } else {
        total as u64
    };
    proof {
        assert(frac == spec_exp_frac(rr as nat));
        lemma_exp_frac_le(rr as nat);
        lemma_mul_div_le(acc as int, frac as int, SCALE as int);
    }
    muldiv(acc, frac, s)
}

/// `r` to the fifth power.
pub open spec fn spec_pow5(r: nat) -> nat {
    r * r * r * r * r
}

/// The integer fifth root: the largest `r` with `r^5 <= v`.
pub open spec fn spec_root5(v: nat) -> nat
    decreases v,
{
    if v == 0 {
        0
    } else {
        let p = spec_root5((v - 1) as nat);
        if spec_pow5(p + 1) <= v {
            p + 1
        } else {
            p
        }
    }
}

/// Fifth powers grow with their base.
proof fn lemma_pow5_monotone(a: nat, b: nat)
    requires
        a <= b,
    ensures
        spec_pow5(a) <= spec_pow5(b),
{
    assert(a * a * a * a * a <= b * b * b * b * b) by (nonlinear_arith)
        requires
            0 <= a <= b,
    ;
}

/// `spec_root5` is characterized by its two-sided bound.
pub proof fn lemma_root5_bounds(v: nat)
    ensures
        spec_pow5(spec_root5(v)) <= v,
        v < spec_pow5(spec_root5(v) + 1),
    decreases v,
{
    if v == 0 {
        assert(spec_root5(0) == 0);
        assert(spec_pow5(0) == 0) by (nonlinear_arith);
        assert(spec_pow5(1) == 1) by (nonlinear_arith);
    } else {
        lemma_root5_bounds((v - 1) as nat);
        let p = spec_root5((v - 1) as nat);
        if spec_pow5(p + 1) <= v {
            assert(spec_root5(v) == p + 1);
            assert(v < spec_pow5(p + 2)) by {
                assert(spec_pow5(p + 1) < spec_pow5(p + 2)) by (nonlinear_arith)
                    requires
                        0 <= p,
                ;
            }
        } else {
            assert(spec_root5(v) == p);
        }
    }
}

/// Any `r` within the two-sided bound is the integer fifth root.
pub proof fn lemma_root5_unique(v: nat, r: nat)
    requires
        spec_pow5(r) <= v,
        v < spec_pow5(r + 1),
    ensures
        r == spec_root5(v),
{
    lemma_root5_bounds(v);
    let s = spec_root5(v);
    if r < s {
        lemma_pow5_monotone(r + 1, s);
    }
    if s < r {
        lemma_pow5_monotone(s + 1, r);
    }
}

/// Computes the integer fifth root by bisection.
pub fn root5_u128(v: u128) -> (r: u64)
    requires
        v < 0x2000_0000_0000_0000_0000_0000_0000_0000u128,
    ensures
        r as nat == spec_root5(v as nat),
        r <= 0x200_0000,
{
    if v == 0 {
        proof {
            assert(spec_pow5(0) == 0) by (nonlinear_arith);
            assert(spec_pow5(1) == 1) by (nonlinear_arith);
            lemma_root5_unique(0, 0);
        }
        return 0;
    }
    let mut lo: u64 = 0;
    let mut hi: u64 = 0x200_0000;
    proof {
        assert(spec_pow5(0x200_0000) == 0x2000_0000_0000_0000_0000_0000_0000_0000);
        assert(spec_pow5(0) == 0) by (nonlinear_arith);
    }
    while hi - lo > 1
        invariant
            lo < hi,
            hi <= 0x200_0000,
            spec_pow5(lo as nat) <= v as nat,
            spec_pow5(hi as nat) > v as nat,
        decreases hi - lo,
    {
        let mid = lo + (hi - lo) / 2;
        proof {
            assert(lo < mid < hi);
            assert((mid as int) * (mid as int) <= 0x4_0000_0000_0000) by (nonlinear_arith)
                requires
                    0 <= mid <= 0x200_0000u64,
            ;
            assert((mid as int) * (mid as int) * (mid as int) <= 0x8_0000_0000_0000_0000_0000)
                by (nonlinear_arith)
                requires
                    0 <= mid <= 0x200_0000u64,
                    (mid as int) * (mid as int) <= 0x4_0000_0000_0000,
            ;
            assert((mid as int) * (mid as int) * (mid as int) * (mid as int)
                <= 0x10_0000_0000_0000_0000_0000_0000) by (nonlinear_arith)
                requires
                    0 <= mid <= 0x200_0000u64,
                    (mid as int) * (mid as int) * (mid as int) <= 0x8_0000_0000_0000_0000_0000,
            ;
            assert((mid as int) * (mid as int) * (mid as int) * (mid as int) * (mid as int)
                <= 0x2000_0000_0000_0000_0000_0000_0000_0000) by (nonlinear_arith)
                requires
                    0 <= mid <= 0x200_0000u64,
                    (mid as int) * (mid as int) * (mid as int) * (mid as int)
                        <= 0x10_0000_0000_0000_0000_0000_0000,
            ;
        }
        let m128 = mid as u128;
        let p5 = m128 * m128 * m128 * m128 * m128;
        if p5 <= v {
            lo = mid;
        } else {
            hi = mid;
        }
    }
    proof {
        assert(hi == lo + 1);
        lemma_root5_unique(v as nat, lo as nat);
    }
    lo
}

/// Silverman's rule of thumb for the Gaussian-kernel bandwidth over `n`
/// samples with standard deviation `sigma`:
/// `h = sigma * (4 / (3 n))^(1/5)`, in fixed point.
pub open spec fn spec_silverman_h(sigma: nat, n: nat) -> nat {
    let s5 = (SCALE as nat) * (SCALE as nat) * (SCALE as nat) * (SCALE as nat) * (SCALE as nat);
    sigma * spec_root5(4 * s5 / (3 * n)) / (SCALE as nat)
}

/// Computes Silverman's bandwidth.
pub fn silverman_h(sigma: u64, n: usize) -> (h: u64)
    requires
        1 <= n,
        sigma <= 2 * MAX_METRIC as u64,
    ensures
        h as nat == spec_silverman_h(sigma as nat, n as nat),
        h <= 4 * MAX_METRIC as u64,
{
    let s5: u128 = 1_000_000u128 * 1_000_000 * 1_000_000 * 1_000_000 * 1_000_000;
    proof {
        assert(s5 == (SCALE as nat) * (SCALE as nat) * (SCALE as nat) * (SCALE as nat) * (
        SCALE as nat));
        assert(4 * s5 < 0x2000_0000_0000_0000_0000_0000_0000_0000u128);
        lemma_div_is_ordered(4 * s5 as int / (3 * n as int), 4 * s5 as int, 1);
        lemma_div_is_ordered_by_denominator(4 * s5 as int, 1, 3 * n as int);
    }
    let q: u128 = 4 * s5 / (3 * (n as u128));
    let f = root5_u128(q);
    proof {
        lemma_root5_bounds(q as nat);
        // the factor stays below two units: its fifth power would otherwise
        // exceed the dividend
        if f > 2_000_000u64 {
            lemma_pow5_monotone(2_000_001, f as nat);
            assert(spec_pow5(2_000_001) > 4 * (1_000_000_000_000_000_000_000_000_000_000nat));
            assert(4 * s5 as nat == 4 * (1_000_000_000_000_000_000_000_000_000_000nat));
            assert(false);
        }
        assert((sigma as int) * (f as int) <= (2 * MAX_METRIC as int) * 2_000_000)
            by (nonlinear_arith)
            requires
                0 <= sigma <= 2 * MAX_METRIC as int,
                0 <= f <= 2_000_000,
        ;
        lemma_multiply_divide_le(
            (sigma as int) * (f as int),
            SCALE as int,
            4 * MAX_METRIC as int,
        );
        vstd::arithmetic::div_mod::lemma_div_pos_is_pos(
            (sigma as int) * (f as int),
            SCALE as int,
        );
    }
    let prod: u128 = (sigma as u128) * (f as u128);
    (prod / 1_000_000) as u64
}

/// One Gaussian kernel term, scaled: `exp(-(u^2)/2) / sqrt(2 pi)` at the
/// scaled distance `u = |x - si| / h`, zero once `u` passes seven units
/// (the true kernel is below one millionth there).
pub open spec fn spec_kernel(x: nat, si: nat, h: nat) -> nat {
    let d = if x >= si {
        (x - si) as nat
    } else {
        (si - x) as nat
    };
    let u = d * (SCALE as nat) / h;
    if u > 7 * SCALE {
        0
    } else {
        spec_exp_neg(u * u / (2 * SCALE as nat)) * (SCALE as nat) / (RT2PI as nat)
    }
}

/// The kernel sum over a sample.
pub open spec fn spec_kernel_sum(x: nat, samples: Seq<u64>, h: nat) -> nat
    decreases samples.len(),
{
    if samples.len() == 0 {
        0
    } else {
        spec_kernel_sum(x, samples.drop_last(), h) + spec_kernel(x, samples.last() as nat, h)
    }
}

/// The Gaussian kernel density estimate at `x` over `samples` with
/// bandwidth `h`: the kernel sum over `n * h`.  A degenerate zero bandwidth
/// reports [`KDE_FALLBACK`].
pub open spec fn spec_kde(x: nat, samples: Seq<u64>, h: nat) -> nat {
    if h == 0 {
        KDE_FALLBACK as nat
    } else {
        spec_kernel_sum(x, samples, h) * (SCALE as nat) / (samples.len() * h)
    }
}

/// Every kernel term stays below `SCALE^2 / sqrt(2 pi)`.
proof fn lemma_kernel_le(x: nat, si: nat, h: nat)
    requires
        h >= 1,
    ensures
        spec_kernel(x, si, h) <= 400_000,
{
    let d = if x >= si {
        (x - si) as nat
    } else {
        (si - x) as nat
    };
    let u = d * (SCALE as nat) / h;
    if u <= 7 * SCALE {
        let e = spec_exp_neg(u * u / (2 * SCALE as nat));
        lemma_exp_neg_le(u * u / (2 * SCALE as nat));
        assert(e * (SCALE as nat) <= (RT2PI as nat) * 400_000) by (nonlinear_arith)
            requires
                0 <= e <= SCALE as int,
        ;
        lemma_multiply_divide_le((e * (SCALE as nat)) as int, RT2PI as int, 400_000);
    }
}

/// The kernel sum over a sample is bounded by the sample size.
proof fn lemma_kernel_sum_le(x: nat, samples: Seq<u64>, h: nat)
    requires
        h >= 1,
    ensures
        spec_kernel_sum(x, samples, h) <= samples.len() * 400_000,
    decreases samples.len(),
{
    if samples.len() > 0 {
        lemma_kernel_sum_le(x, samples.drop_last(), h);
        lemma_kernel_le(x, samples.last() as nat, h);
        assert((samples.len() - 1) * 400_000 + 400_000 == samples.len() * 400_000)
            by (nonlinear_arith);
    }
}

/// Computes the kernel density estimate at `x`.
pub fn kde_fx(x: u64, samples: &Vec<u64>, h: u64) -> (r: u64)
    requires
        1 <= samples@.len() <= MAX_SAMPLES,
        x <= LOG_MAX,
        forall|i: int| 0 <= i < samples@.len() ==> #[trigger] samples@[i] <= LOG_MAX,
        h <= 4 * MAX_METRIC as u64,
    ensures
        r as nat == spec_kde(x as nat, samples@, h as nat),
        r <= 40_000_000_000_000_000,
{
    if h == 0 {
        return KDE_FALLBACK as u64;
    }
    let s: u64 = SCALE as u64;
    let mut sum: u64 = 0;
    let mut i: usize = 0;
    while i < samples.len()
        invariant
            s == SCALE as u64,
            i <= samples@.len(),
            samples@.len() <= MAX_SAMPLES,
            x <= LOG_MAX,
            forall|k: int| 0 <= k < samples@.len() ==> #[trigger] samples@[k] <= LOG_MAX,
            h >= 1,
            sum == spec_kernel_sum(x as nat, samples@.subrange(0, i as int), h as nat),
            sum <= (i as int) * 400_000,
        decreases samples@.len() - i,
    {
        proof {
            assert(samples@.subrange(0, i + 1).drop_last() =~= samples@.subrange(0, i as int));
            assert(samples@.subrange(0, i + 1).last() == samples@[i as int]);
        }
        let si = samples[i];
        let d: u64 = if x >= si {
            x - si
        } else {
            si - x
        };
        let u: u64 = d * s / h;
        let k: u64 = if u > 7 * s {
            0
        } else {
            let e = exp_neg_fx(muldiv(u, u, 2 * s));
            muldiv(e, s, RT2PI)
        };
        proof {
            lemma_kernel_le(x as nat, samples@[i as int] as nat, h as nat);
            assert((i as int) * 400_000 + 400_000 == (i + 1) * 400_000) by (nonlinear_arith);
        }
        sum = sum + k;
        i = i + 1;
    }
    proof {
        assert(samples@.subrange(0, samples@.len() as int) =~= samples@);
        lemma_kernel_sum_le(x as nat, samples@, h as nat);
        assert(sum * (SCALE as int) <= (MAX_SAMPLES as int) * 400_000 * (SCALE as int))
            by (nonlinear_arith)
            requires
                0 <= sum <= (MAX_SAMPLES as int) * 400_000,
        ;
    }
    let num: u64 = sum * s;
    proof {
        assert((samples@.len() as int) * (h as int) <= 0x7fff_ffff_ffff_ffff_ffff_ffff_ffff_ffff)
            by (nonlinear_arith)
            requires
                samples@.len() <= MAX_SAMPLES,
                h <= 4 * MAX_METRIC as u64,
        ;
    }
    let denom: u128 = (samples.len() as u128) * (h as u128);
    proof {
        assert(denom >= 1) by (nonlinear_arith)
            requires
                denom == (samples@.len() as int) * (h as int),
                samples@.len() >= 1,
                h >= 1,
        ;
        lemma_div_is_ordered((num as int) / (denom as int), num as int, 1);
        lemma_div_is_ordered_by_denominator(num as int, 1, denom as int);
    }
    ((num as u128) / denom) as u64
}

} // verus!
