//! Fixed-point exponential and natural logarithm.
//!
//! Values are integers scaled by [`SCALE_FACTOR`], so `SCALE_FACTOR` stands
//! for 1.0. Both functions are truncated power series evaluated with integer
//! division that rounds toward zero; their results are fully determined by
//! the spec functions [`exp_fixed`] and [`ln_fixed`].

use vstd::prelude::*;
use vstd::arithmetic::div_mod::{lemma_div_by_multiple, lemma_div_is_ordered};
use crate::error::MarketError;

verus! {

/// The fixed-point unit: the integer that stands for 1.0.
pub const SCALE_FACTOR: i128 = 10_000_000;

/// The natural logarithm of 2, scaled.
pub const LN2_SCALED: i128 = 6_931_472;

/// Number of terms after the leading 1 in the exponential series.
pub const EXP_ITERATIONS: u32 = 20;

/// Number of terms in the logarithm series.
pub const LN_ITERATIONS: u32 = 30;

/// Largest magnitude of an argument that the exponential series is
/// evaluated on: 20.0, scaled.
pub const EXP_ARG_LIMIT: i128 = 200_000_000;

/// An upper bound on the magnitude of every term of the exponential series
/// on arguments within [`EXP_ARG_LIMIT`].
pub const EXP_TERM_LIMIT: i128 = 1_000_000_000_000_000;

/// Whether `v` is representable as a signed 128-bit integer.
pub open spec fn fits_i128(v: int) -> bool {
    i128::MIN <= v <= i128::MAX
}

/// The quotient of `a` by a positive `d`, rounded toward zero.
pub open spec fn div_toward_zero(a: int, d: int) -> int
    recommends
        d > 0,
{
    if a >= 0 {
        a / d
    } else {
        -((-a) / d)
    }
}

/// The `n`-th term of the exponential series at `x`: the previous term times
/// `x`, divided by `n` and rescaled, rounded toward zero. Term 0 is 1.0.
pub open spec fn exp_term(x: int, n: nat) -> int
    decreases n,
{
    if n == 0 {
        SCALE_FACTOR as int
    } else {
        div_toward_zero(exp_term(x, (n - 1) as nat) * x, n * SCALE_FACTOR)
    }
}

/// The sum of terms `0..=n` of the exponential series at `x`.
pub open spec fn exp_series(x: int, n: nat) -> int
    decreases n,
{
    if n == 0 {
        SCALE_FACTOR as int
    } else {
        exp_series(x, (n - 1) as nat) + exp_term(x, n)
    }
}

/// The fixed-point exponential of `x`, for `x` up to [`EXP_ARG_LIMIT`]:
/// zero below `-EXP_ARG_LIMIT`, otherwise the series through term
/// [`EXP_ITERATIONS`], clamped at zero from below.
pub open spec fn exp_fixed(x: int) -> int {
    if x < -EXP_ARG_LIMIT {
        0
    } else if exp_series(x, EXP_ITERATIONS as nat) < 0 {
        0
    } else {
        exp_series(x, EXP_ITERATIONS as nat)
    }
}

/// A bound on the magnitude of term `n` of the exponential series that holds
/// for every argument within [`EXP_ARG_LIMIT`].
pub open spec fn exp_term_bound(n: nat) -> int
    decreases n,
{
    if n == 0 {
        SCALE_FACTOR as int
    } else {
        (exp_term_bound((n - 1) as nat) * EXP_ARG_LIMIT) / (n * SCALE_FACTOR)
    }
}

proof fn lemma_product_bound(a: int, x: int, bound_a: int, bound_x: int)
    by (nonlinear_arith)
    requires
        -bound_a <= a <= bound_a,
        -bound_x <= x <= bound_x,
    ensures
        -(bound_a * bound_x) <= a * x <= bound_a * bound_x,
{
}

proof fn lemma_div_toward_zero_bound(a: int, d: int, bound: int)
    requires
        d > 0,
        -bound <= a <= bound,
    ensures
        -(bound / d) <= div_toward_zero(a, d) <= bound / d,
        a >= 0 ==> div_toward_zero(a, d) >= 0,
        a <= 0 ==> div_toward_zero(a, d) <= 0,
{
    if a >= 0 {
        lemma_div_is_ordered(a, bound, d);
        lemma_div_is_ordered(0, a, d);
    } else {
        lemma_div_is_ordered(-a, bound, d);
        lemma_div_is_ordered(0, -a, d);
    }
}

/// Every term of the exponential series stays within its bound.
pub proof fn lemma_exp_term_bound(x: int, n: nat)
    requires
        -EXP_ARG_LIMIT <= x <= EXP_ARG_LIMIT,
    ensures
        -exp_term_bound(n) <= exp_term(x, n) <= exp_term_bound(n),
    decreases n,
{
    if n > 0 {
        let prev = (n - 1) as nat;
        lemma_exp_term_bound(x, prev);
        lemma_product_bound(exp_term(x, prev), x, exp_term_bound(prev), EXP_ARG_LIMIT as int);
        lemma_div_toward_zero_bound(
            exp_term(x, prev) * x,
            n * SCALE_FACTOR,
            exp_term_bound(prev) * EXP_ARG_LIMIT,
        );
    }
}

proof fn lemma_exp_term_bound_step(n: nat, prev: int, next: int)
    requires
        n > 0,
        exp_term_bound((n - 1) as nat) == prev,
        next == (prev * 200_000_000) / (n as int * 10_000_000),
    ensures
        exp_term_bound(n) == next,
{
}

/// The term bounds never exceed [`EXP_TERM_LIMIT`].
pub proof fn lemma_exp_term_bound_limit(n: nat)
    requires
        n <= EXP_ITERATIONS,
    ensures
        0 <= exp_term_bound(n) <= EXP_TERM_LIMIT,
{
    lemma_exp_term_bound_step(1, 10_000_000, 200_000_000);
    lemma_exp_term_bound_step(2, 200_000_000, 2_000_000_000);
    lemma_exp_term_bound_step(3, 2_000_000_000, 13_333_333_333);
    lemma_exp_term_bound_step(4, 13_333_333_333, 66_666_666_665);
    lemma_exp_term_bound_step(5, 66_666_666_665, 266_666_666_660);
    lemma_exp_term_bound_step(6, 266_666_666_660, 888_888_888_866);
    lemma_exp_term_bound_step(7, 888_888_888_866, 2_539_682_539_617);
    lemma_exp_term_bound_step(8, 2_539_682_539_617, 6_349_206_349_042);
    lemma_exp_term_bound_step(9, 6_349_206_349_042, 14_109_347_442_315);
    lemma_exp_term_bound_step(10, 14_109_347_442_315, 28_218_694_884_630);
    lemma_exp_term_bound_step(11, 28_218_694_884_630, 51_306_717_972_054);
    lemma_exp_term_bound_step(12, 51_306_717_972_054, 85_511_196_620_090);
    lemma_exp_term_bound_step(13, 85_511_196_620_090, 131_555_687_107_830);
    lemma_exp_term_bound_step(14, 131_555_687_107_830, 187_936_695_868_328);
    lemma_exp_term_bound_step(15, 187_936_695_868_328, 250_582_261_157_770);
    lemma_exp_term_bound_step(16, 250_582_261_157_770, 313_227_826_447_212);
    lemma_exp_term_bound_step(17, 313_227_826_447_212, 368_503_325_232_014);
    lemma_exp_term_bound_step(18, 368_503_325_232_014, 409_448_139_146_682);
    lemma_exp_term_bound_step(19, 409_448_139_146_682, 430_998_041_207_033);
    lemma_exp_term_bound_step(20, 430_998_041_207_033, 430_998_041_207_033);
}

/// Every partial sum of the exponential series is bounded by the number of
/// its terms times [`EXP_TERM_LIMIT`].
pub proof fn lemma_exp_series_bound(x: int, n: nat)
    requires
        -EXP_ARG_LIMIT <= x <= EXP_ARG_LIMIT,
        n <= EXP_ITERATIONS,
    ensures
        -(n + 1) * EXP_TERM_LIMIT <= exp_series(x, n) <= (n + 1) * EXP_TERM_LIMIT,
    decreases n,
{
    lemma_exp_term_bound(x, n);
    lemma_exp_term_bound_limit(n);
    if n > 0 {
        lemma_exp_series_bound(x, (n - 1) as nat);
    }
}

/// Once a term of the exponential series is zero, all later terms are zero
/// and the partial sums no longer change.
pub proof fn lemma_exp_series_settles(x: int, n: nat, m: nat)
    requires
        exp_term(x, n) == 0,
        n <= m,
    ensures
        exp_term(x, m) == 0,
        exp_series(x, m) == exp_series(x, n),
    decreases m,
{
    if n < m {
        lemma_exp_series_settles(x, n, (m - 1) as nat);
        assert(exp_term(x, (m - 1) as nat) * x == 0) by (nonlinear_arith)
            requires
                exp_term(x, (m - 1) as nat) == 0,
        ;
    }
}

/// The fixed-point exponential lies between zero and a fixed bound.
pub proof fn lemma_exp_fixed_range(x: int)
    requires
        x <= EXP_ARG_LIMIT,
    ensures
        0 <= exp_fixed(x) <= (EXP_ITERATIONS + 1) * EXP_TERM_LIMIT,
{
    if x >= -EXP_ARG_LIMIT {
        lemma_exp_series_bound(x, EXP_ITERATIONS as nat);
    }
}

/// The exponential of zero is exactly 1.0.
pub proof fn lemma_exp_fixed_of_zero()
    ensures
        exp_fixed(0) == SCALE_FACTOR,
{
    assert(exp_term(0, 0) * 0 == 0) by (nonlinear_arith);
    assert(exp_term(0, 1) == 0);
    lemma_exp_series_settles(0, 1, EXP_ITERATIONS as nat);
    assert(exp_series(0, 1) == exp_series(0, 0) + exp_term(0, 1));
}

/// Computes the fixed-point exponential of `x`.
///
/// Arguments above 20.0 are rejected with `Overflow`; arguments below -20.0
/// give exactly zero. In between the result is the truncated series
/// [`exp_fixed`], and no intermediate value overflows.
pub fn exp_scaled(x: i128) -> (r: Result<i128, MarketError>)
    ensures
        match r {
            Ok(v) => x <= EXP_ARG_LIMIT && v == exp_fixed(x as int),
            Err(e) => x > EXP_ARG_LIMIT && e == MarketError::Overflow,
        },
{
    if x < -20 * SCALE_FACTOR {
        return Ok(0);
    }
    if x > 20 * SCALE_FACTOR {
        return Err(MarketError::Overflow);
    }
    let mut result: i128 = SCALE_FACTOR;
    let mut term: i128 = SCALE_FACTOR;
    let mut n: u32 = 1;
    while n <= EXP_ITERATIONS
        invariant
            1 <= n <= EXP_ITERATIONS + 1,
            -EXP_ARG_LIMIT <= x <= EXP_ARG_LIMIT,
            term == exp_term(x as int, (n - 1) as nat),
            result == exp_series(x as int, (n - 1) as nat),
        decreases EXP_ITERATIONS + 1 - n,
    {
        proof {
            let prev = (n - 1) as nat;
            lemma_exp_term_bound(x as int, prev);
            lemma_exp_term_bound_limit(prev);
            lemma_product_bound(term as int, x as int, EXP_TERM_LIMIT as int, EXP_ARG_LIMIT as int);
            lemma_exp_term_bound(x as int, n as nat);
            lemma_exp_term_bound_limit(n as nat);
            lemma_exp_series_bound(x as int, prev);
        }
        let product = match term.checked_mul(x) {
            Some(p) => p,
            None => { return Err(MarketError::Overflow); },
        };
        term = match product.checked_div(n as i128 * SCALE_FACTOR) {
            Some(q) => q,
            None => { return Err(MarketError::Overflow); },
        };
        result = match result.checked_add(term) {
            Some(s) => s,
            None => { return Err(MarketError::Overflow); },
        };
        if -1 < term && term < 1 {
            proof {
                lemma_exp_series_settles(x as int, n as nat, EXP_ITERATIONS as nat);
            }
            return Ok(if result < 0 { 0 } else { result });
        }
        n = n + 1;
    }
    Ok(if result < 0 { 0 } else { result })
}

/// How often a value must be halved, rounding down, to fall below 2.0.
pub open spec fn ln_halvings(x: int) -> nat
    decreases x,
{
    if x >= 2 * SCALE_FACTOR {
        1 + ln_halvings(x / 2)
    } else {
        0
    }
}

/// The value that repeated halving, rounding down, leaves below 2.0.
pub open spec fn ln_halved(x: int) -> int
    decreases x,
{
    if x >= 2 * SCALE_FACTOR {
        ln_halved(x / 2)
    } else {
        x
    }
}

/// How often a positive value must be doubled to reach 1.0.
pub open spec fn ln_doublings(x: int) -> nat
    decreases 2 * SCALE_FACTOR - x,
{
    if 0 < x < SCALE_FACTOR {
        1 + ln_doublings(2 * x)
    } else {
        0
    }
}

/// The value that repeated doubling of a positive value first brings to 1.0
/// or above.
pub open spec fn ln_doubled(x: int) -> int
    decreases 2 * SCALE_FACTOR - x,
{
    if 0 < x < SCALE_FACTOR {
        ln_doubled(2 * x)
    } else {
        x
    }
}

/// The mantissa of a positive `x`: `x` scaled by a power of two into the
/// range from 1.0 up to, but not including, 2.0.
pub open spec fn ln_mantissa(x: int) -> int {
    ln_doubled(ln_halved(x))
}

/// The power of two by which the mantissa of `x` must be multiplied to give
/// back `x` (up to the rounding of the halvings).
pub open spec fn ln_exponent(x: int) -> int {
    ln_halvings(x) - ln_doublings(ln_halved(x))
}

/// The `k`-th fixed-point power of `y`, for `k >= 1`: each further power
/// multiplies by `y` and rescales, rounding down.
pub open spec fn ln_power(y: int, k: nat) -> int
    decreases k,
{
    if k <= 1 {
        y
    } else {
        (ln_power(y, (k - 1) as nat) * y) / (SCALE_FACTOR as int)
    }
}

/// The `k`-th term of the series for `ln(1 + y)`: the `k`-th power over `k`,
/// rounded down, added for odd `k` and subtracted for even `k`.
pub open spec fn ln_term(y: int, k: nat) -> int {
    if k % 2 == 1 {
        ln_power(y, k) / (k as int)
    } else {
        -(ln_power(y, k) / (k as int))
    }
}

/// The sum of terms `1..=k` of the series for `ln(1 + y)`.
pub open spec fn ln_series(y: int, k: nat) -> int
    decreases k,
{
    if k == 0 {
        0
    } else {
        ln_series(y, (k - 1) as nat) + ln_term(y, k)
    }
}

/// The fixed-point natural logarithm of a positive `x`: the series through
/// term [`LN_ITERATIONS`] at the mantissa less 1.0, plus the exponent times
/// [`LN2_SCALED`].
pub open spec fn ln_fixed(x: int) -> int {
    ln_series(ln_mantissa(x) - SCALE_FACTOR, LN_ITERATIONS as nat) + ln_exponent(x) * LN2_SCALED
}

/// The number of halvings is small against the value halved.
pub proof fn lemma_ln_halvings_bound(x: int)
    ensures
        ln_halvings(x) * (2 * SCALE_FACTOR) <= if x >= 0 { x } else { 0 },
        x >= 2 * SCALE_FACTOR ==> SCALE_FACTOR <= ln_halved(x) < 2 * SCALE_FACTOR,
        x < 2 * SCALE_FACTOR ==> ln_halved(x) == x,
    decreases x,
{
    if x >= 2 * SCALE_FACTOR {
        lemma_ln_halvings_bound(x / 2);
    }
}

/// Doubling stops within the range from 1.0 to 2.0 after fewer steps than
/// the fixed-point unit.
pub proof fn lemma_ln_doublings_bound(x: int)
    requires
        0 < x < 2 * SCALE_FACTOR,
    ensures
        ln_doublings(x) + x <= 2 * SCALE_FACTOR,
        SCALE_FACTOR <= ln_doubled(x) < 2 * SCALE_FACTOR,
    decreases 2 * SCALE_FACTOR - x,
{
    if x < SCALE_FACTOR {
        lemma_ln_doublings_bound(2 * x);
    }
}

/// The powers of a `y` between 0 and 1.0 are nonnegative and never exceed
/// `y`.
pub proof fn lemma_ln_power_bound(y: int, k: nat)
    requires
        0 <= y < SCALE_FACTOR,
    ensures
        0 <= ln_power(y, k) <= y,
    decreases k,
{
    if k > 1 {
        let prev = ln_power(y, (k - 1) as nat);
        lemma_ln_power_bound(y, (k - 1) as nat);
        assert(0 <= prev * y <= prev * SCALE_FACTOR) by (nonlinear_arith)
            requires
                0 <= prev,
                0 <= y < SCALE_FACTOR,
        ;
        lemma_div_is_ordered(0, prev * y, SCALE_FACTOR as int);
        lemma_div_is_ordered(prev * y, prev * SCALE_FACTOR, SCALE_FACTOR as int);
        lemma_div_by_multiple(prev, SCALE_FACTOR as int);
    }
}

/// Every term of the logarithm series is smaller in magnitude than 1.0.
pub proof fn lemma_ln_term_bound(y: int, k: nat)
    requires
        0 <= y < SCALE_FACTOR,
        k >= 1,
    ensures
        -SCALE_FACTOR < ln_term(y, k) < SCALE_FACTOR,
{
    lemma_ln_power_bound(y, k);
    lemma_div_is_ordered(0, ln_power(y, k), k as int);
    lemma_div_is_ordered(ln_power(y, k), SCALE_FACTOR as int, k as int);
    lemma_div_is_ordered(SCALE_FACTOR as int, k * SCALE_FACTOR, k as int);
    lemma_div_by_multiple(SCALE_FACTOR as int, k as int);
    assert(k * SCALE_FACTOR == SCALE_FACTOR * k) by (nonlinear_arith);
    assert(SCALE_FACTOR <= k * SCALE_FACTOR) by (nonlinear_arith)
        requires
            k >= 1,
    ;
}

/// The sum of the first `k` terms of the logarithm series is smaller in
/// magnitude than `k` times 1.0.
pub proof fn lemma_ln_series_bound(y: int, k: nat)
    requires
        0 <= y < SCALE_FACTOR,
    ensures
        -k * SCALE_FACTOR <= ln_series(y, k) <= k * SCALE_FACTOR,
    decreases k,
{
    if k > 0 {
        lemma_ln_series_bound(y, (k - 1) as nat);
        lemma_ln_term_bound(y, k);
        assert(k * SCALE_FACTOR == (k - 1) * SCALE_FACTOR + SCALE_FACTOR) by (nonlinear_arith);
        assert(-k * SCALE_FACTOR == -(k - 1) * SCALE_FACTOR - SCALE_FACTOR) by (nonlinear_arith);
    } else {
        assert(0 * SCALE_FACTOR == 0);
    }
}

/// Once a power in the logarithm series is zero, all later powers are zero
/// and the partial sums no longer change.
pub proof fn lemma_ln_series_settles(y: int, k: nat, m: nat)
    requires
        k >= 1,
        ln_power(y, k) == 0,
        k <= m + 1,
    ensures
        ln_power(y, m + 1) == 0,
        ln_series(y, m) == ln_series(y, (k - 1) as nat),
    decreases m,
{
    if k <= m {
        lemma_ln_series_settles(y, k, (m - 1) as nat);
        assert(ln_power(y, m) == 0);
        assert(ln_power(y, m) * y == 0) by (nonlinear_arith)
            requires
                ln_power(y, m) == 0,
        ;
        assert(ln_term(y, m) == 0);
    }
}

/// The logarithm of 1.0 is exactly zero.
pub proof fn lemma_ln_fixed_of_one()
    ensures
        ln_fixed(SCALE_FACTOR as int) == 0,
{
    lemma_ln_series_settles(0, 1, LN_ITERATIONS as nat);
    assert(ln_halved(SCALE_FACTOR as int) == SCALE_FACTOR);
    assert(ln_doubled(SCALE_FACTOR as int) == SCALE_FACTOR);
    assert(ln_halvings(SCALE_FACTOR as int) == 0);
    assert(ln_doublings(SCALE_FACTOR as int) == 0);
    assert(ln_series(0, 0) == 0);
}

/// The fixed-point logarithm of a positive 128-bit value lies well inside
/// the 128-bit range.
pub proof fn lemma_ln_fixed_range(x: int)
    requires
        0 < x <= i128::MAX,
    ensures
        -(LN_ITERATIONS + 2) * SCALE_FACTOR * SCALE_FACTOR <= ln_fixed(x),
        ln_fixed(x) <= LN_ITERATIONS * SCALE_FACTOR + x,
        x >= SCALE_FACTOR ==> ln_fixed(x) >= -LN_ITERATIONS * SCALE_FACTOR,
{
    lemma_ln_halvings_bound(x);
    lemma_ln_doublings_bound(ln_halved(x));
    lemma_ln_series_bound(ln_mantissa(x) - SCALE_FACTOR, LN_ITERATIONS as nat);
    let e = ln_exponent(x);
    assert(e * (2 * SCALE_FACTOR) <= ln_halvings(x) * (2 * SCALE_FACTOR)) by (nonlinear_arith)
        requires
            e <= ln_halvings(x),
            SCALE_FACTOR == 10_000_000,
    ;
    assert(-2 * SCALE_FACTOR * LN2_SCALED <= e * LN2_SCALED <= x) by (nonlinear_arith)
        requires
            -2 * SCALE_FACTOR <= e,
            e * (2 * SCALE_FACTOR) <= x,
            0 < x,
            LN2_SCALED == 6_931_472,
            SCALE_FACTOR == 10_000_000,
    ;
    if x >= SCALE_FACTOR {
        assert(ln_doublings(ln_halved(x)) == 0);
        assert(e * LN2_SCALED >= 0) by (nonlinear_arith)
            requires
                e >= 0,
                LN2_SCALED == 6_931_472,
        ;
    }
}

/// Computes the fixed-point natural logarithm of `x`.
///
/// Arguments that are not positive are rejected with `Overflow`. For every
/// positive argument the result is [`ln_fixed`], and no intermediate value
/// overflows. The logarithm of 1.0 is exactly zero.
pub fn ln_scaled(x: i128) -> (r: Result<i128, MarketError>)
    ensures
        match r {
            Ok(v) => x > 0 && v == ln_fixed(x as int),
            Err(e) => x <= 0 && e == MarketError::Overflow,
        },
        x == SCALE_FACTOR ==> r == Ok::<i128, MarketError>(0),
{
    if x <= 0 {
        return Err(MarketError::Overflow);
    }
    if x == SCALE_FACTOR {
        proof {
            lemma_ln_fixed_of_one();
        }
        return Ok(0);
    }
    let mut normalized: i128 = x;
    let mut n: i128 = 0;
    while normalized >= 2 * SCALE_FACTOR
        invariant
            0 < normalized <= x,
            0 <= n,
            n + normalized <= x,
            ln_halvings(x as int) == n + ln_halvings(normalized as int),
            ln_halved(x as int) == ln_halved(normalized as int),
        decreases normalized,
    {
        normalized = match normalized.checked_div(2) {
            Some(half) => half,
            None => { return Err(MarketError::Overflow); },
        };
        n = n + 1;
    }
    proof {
        lemma_ln_halvings_bound(x as int);
        lemma_ln_doublings_bound(normalized as int);
    }
    let ghost halvings = n as int;
    let ghost halved = normalized as int;
    while normalized < SCALE_FACTOR && normalized > 0
        invariant
            0 < normalized < 2 * SCALE_FACTOR,
            0 < halved < 2 * SCALE_FACTOR,
            n + normalized >= 1,
            n <= halvings,
            ln_doublings(halved) == halvings - n + ln_doublings(normalized as int),
            ln_doubled(halved) == ln_doubled(normalized as int),
        decreases 2 * SCALE_FACTOR - normalized,
    {
        normalized = match normalized.checked_mul(2) {
            Some(double) => double,
            None => { return Err(MarketError::Overflow); },
        };
        n = n - 1;
    }
    assert(normalized == ln_mantissa(x as int));
    assert(n == ln_exponent(x as int));

    let y_num: i128 = normalized - SCALE_FACTOR;
    let mut result: i128 = 0;
    let mut y_power: i128 = y_num;
    let mut sign: i128 = 1;
    let mut k: u32 = 1;
    while k <= LN_ITERATIONS
        invariant_except_break
            1 <= k <= LN_ITERATIONS + 1,
            y_power == ln_power(y_num as int, k as nat),
            result == ln_series(y_num as int, (k - 1) as nat),
            sign == if k % 2 == 1 { 1i128 } else { -1i128 },
        invariant
            0 <= y_num < SCALE_FACTOR,
        ensures
            result == ln_series(y_num as int, LN_ITERATIONS as nat),
        decreases LN_ITERATIONS + 1 - k,
    {
        proof {
            lemma_ln_power_bound(y_num as int, k as nat);
            lemma_ln_term_bound(y_num as int, k as nat);
            lemma_ln_series_bound(y_num as int, (k - 1) as nat);
            lemma_ln_series_bound(y_num as int, k as nat);
            assert(0 <= y_power * y_num <= SCALE_FACTOR * SCALE_FACTOR) by (nonlinear_arith)
                requires
                    0 <= y_power <= y_num,
                    0 <= y_num < SCALE_FACTOR,
            ;
            assert(sign * y_power == if k % 2 == 1 { y_power as int } else { -y_power }) by (nonlinear_arith)
                requires
                    sign == if k % 2 == 1 { 1i128 } else { -1i128 },
            ;
        }
        let term = match (sign * y_power).checked_div(k as i128) {
            Some(t) => t,
            None => { return Err(MarketError::Overflow); },
        };
        assert(term == ln_term(y_num as int, k as nat));
        result = match result.checked_add(term) {
            Some(s) => s,
            None => { return Err(MarketError::Overflow); },
        };
        let product = match y_power.checked_mul(y_num) {
            Some(p) => p,
            None => { return Err(MarketError::Overflow); },
        };
        y_power = match product.checked_div(SCALE_FACTOR) {
            Some(q) => q,
            None => { return Err(MarketError::Overflow); },
        };
        sign = -sign;
        if -1 < y_power && y_power < 1 {
            proof {
                lemma_ln_series_settles(y_num as int, (k + 1) as nat, LN_ITERATIONS as nat);
            }
            break;
        }
        k = k + 1;
    }
    proof {
        lemma_ln_fixed_range(x as int);
        lemma_ln_series_bound(y_num as int, LN_ITERATIONS as nat);
    }
    let adjustment = match n.checked_mul(LN2_SCALED) {
        Some(a) => a,
        None => { return Err(MarketError::Overflow); },
    };
    match result.checked_add(adjustment) {
        Some(v) => Ok(v),
        None => Err(MarketError::Overflow),
    }
}

} // verus!
