//! The LMSR pricing engine.
//!
//! The cost of holding `q_yes` YES tokens and `q_no` NO tokens outstanding in
//! a market with liquidity parameter `b` is
//! `C(q) = b * ln(e^(q_yes / b) + e^(q_no / b))`. A purchase costs the
//! difference of `C` after and before it, a sale returns the difference
//! before and after it, and the price of an outcome is its share of the sum
//! of exponentials.
//!
//! All quantities are fixed-point integers. Every product, sum and
//! difference is checked against the signed 128-bit range, and a value that
//! leaves the range fails the whole computation with `Overflow`. The spec
//! functions in this module state, over unbounded integers, exactly which
//! value or failure each function gives.

use vstd::prelude::*;
use vstd::arithmetic::div_mod::{lemma_div_by_multiple, lemma_div_is_ordered, lemma_fundamental_div_mod};
use crate::error::MarketError;
use crate::fixed_point::{
    div_toward_zero, exp_fixed, exp_scaled, fits_i128, lemma_exp_fixed_of_zero,
    lemma_exp_fixed_range, ln_fixed, ln_scaled, EXP_ARG_LIMIT, LN2_SCALED,
    SCALE_FACTOR,
};

verus! {

/// Selector of the YES outcome.
pub const OUTCOME_YES: u32 = 0;

/// Selector of the NO outcome.
pub const OUTCOME_NO: u32 = 1;

/// Whether an executable result is the result that a spec function gives
/// over unbounded integers.
pub open spec fn agrees(r: Result<i128, MarketError>, expected: Result<int, MarketError>) -> bool {
    match r {
        Ok(v) => expected == Ok::<int, MarketError>(v as int),
        Err(e) => expected == Err::<int, MarketError>(e),
    }
}

/// The fixed-point quotient `q / b`, or `Overflow` where rescaling `q`
/// leaves the 128-bit range.
pub open spec fn ratio_fixed(q: int, b: int) -> Result<int, MarketError>
    recommends
        b > 0,
{
    if !fits_i128(q * SCALE_FACTOR) {
        Err(MarketError::Overflow)
    } else {
        Ok(div_toward_zero(q * SCALE_FACTOR, b))
    }
}

/// The LMSR cost function in fixed point.
///
/// With `hi` and `lo` the larger and the smaller of `q_yes / b` and
/// `q_no / b`, the cost is `b * (hi + ln(1 + e^(lo - hi)))`.
pub open spec fn cost_fixed(q_yes: int, q_no: int, b: int) -> Result<int, MarketError> {
    if b <= 0 {
        Err(MarketError::InvalidLiquidity)
    } else if ratio_fixed(q_yes, b) is Err || ratio_fixed(q_no, b) is Err {
        Err(MarketError::Overflow)
    } else {
        let yes = ratio_fixed(q_yes, b)->Ok_0;
        let no = ratio_fixed(q_no, b)->Ok_0;
        let hi = if yes >= no { yes } else { no };
        let lo = if yes >= no { no } else { yes };
        let inside = hi + ln_fixed(SCALE_FACTOR + exp_fixed(lo - hi));
        if !fits_i128(lo - hi) || !fits_i128(inside) || !fits_i128(b * inside) {
            Err(MarketError::Overflow)
        } else {
            Ok(div_toward_zero(b * inside, SCALE_FACTOR as int))
        }
    }
}

/// The quantity outstanding of `outcome`.
pub open spec fn outstanding(q_yes: int, q_no: int, outcome: u32) -> int {
    if outcome == OUTCOME_YES {
        q_yes
    } else {
        q_no
    }
}

/// The quantities outstanding after `amount` more tokens of `outcome` have
/// been issued (or, for a negative `amount`, taken back).
pub open spec fn quantities_after(q_yes: int, q_no: int, amount: int, outcome: u32) -> (int, int) {
    if outcome == OUTCOME_YES {
        (q_yes + amount, q_no)
    } else {
        (q_yes, q_no + amount)
    }
}

/// The cost of buying `amount` tokens of `outcome`: the cost function after
/// the purchase less the cost function before it.
pub open spec fn buy_cost_fixed(q_yes: int, q_no: int, amount: int, outcome: u32, b: int) -> Result<
    int,
    MarketError,
> {
    let after = quantities_after(q_yes, q_no, amount, outcome);
    if amount <= 0 {
        Err(MarketError::InvalidAmount)
    } else if cost_fixed(q_yes, q_no, b) is Err {
        cost_fixed(q_yes, q_no, b)
    } else if outcome != OUTCOME_YES && outcome != OUTCOME_NO {
        Err(MarketError::InvalidOutcome)
    } else if !fits_i128(after.0) || !fits_i128(after.1) {
        Err(MarketError::Overflow)
    } else if cost_fixed(after.0, after.1, b) is Err {
        cost_fixed(after.0, after.1, b)
    } else {
        let paid = cost_fixed(after.0, after.1, b)->Ok_0 - cost_fixed(q_yes, q_no, b)->Ok_0;
        if !fits_i128(paid) {
            Err(MarketError::Overflow)
        } else {
            Ok(paid)
        }
    }
}

/// The return from selling `amount` tokens of `outcome`: the cost function
/// before the sale less the cost function after it. No more can be sold than
/// is outstanding.
pub open spec fn sell_return_fixed(q_yes: int, q_no: int, amount: int, outcome: u32, b: int) -> Result<
    int,
    MarketError,
> {
    let after = quantities_after(q_yes, q_no, -amount, outcome);
    if amount <= 0 {
        Err(MarketError::InvalidAmount)
    } else if cost_fixed(q_yes, q_no, b) is Err {
        cost_fixed(q_yes, q_no, b)
    } else if outcome != OUTCOME_YES && outcome != OUTCOME_NO {
        Err(MarketError::InvalidOutcome)
    } else if outstanding(q_yes, q_no, outcome) < amount {
        Err(MarketError::InsufficientBalance)
    } else if !fits_i128(after.0) || !fits_i128(after.1) {
        Err(MarketError::Overflow)
    } else if cost_fixed(after.0, after.1, b) is Err {
        cost_fixed(after.0, after.1, b)
    } else {
        let returned = cost_fixed(q_yes, q_no, b)->Ok_0 - cost_fixed(after.0, after.1, b)->Ok_0;
        if !fits_i128(returned) {
            Err(MarketError::Overflow)
        } else {
            Ok(returned)
        }
    }
}

/// The price of `outcome`: its exponential's share of the sum of both
/// exponentials, as a fixed-point fraction.
pub open spec fn price_fixed(q_yes: int, q_no: int, outcome: u32, b: int) -> Result<int, MarketError> {
    if b <= 0 {
        Err(MarketError::InvalidLiquidity)
    } else if ratio_fixed(q_yes, b) is Err || ratio_fixed(q_no, b) is Err {
        Err(MarketError::Overflow)
    } else {
        let yes = ratio_fixed(q_yes, b)->Ok_0;
        let no = ratio_fixed(q_no, b)->Ok_0;
        let sum = exp_fixed(yes) + exp_fixed(no);
        if yes > EXP_ARG_LIMIT || no > EXP_ARG_LIMIT || sum == 0 {
            Err(MarketError::Overflow)
        } else if outcome == OUTCOME_YES {
            Ok(exp_fixed(yes) * SCALE_FACTOR / sum)
        } else if outcome == OUTCOME_NO {
            Ok(exp_fixed(no) * SCALE_FACTOR / sum)
        } else {
            Err(MarketError::InvalidOutcome)
        }
    }
}

/// The collateral that must seed a market with liquidity parameter `b`:
/// `b * ln(2)`, rounded down.
pub open spec fn initial_liquidity_fixed(b: int) -> Result<int, MarketError> {
    if b <= 0 {
        Err(MarketError::InvalidLiquidity)
    } else if !fits_i128(b * LN2_SCALED) {
        Err(MarketError::Overflow)
    } else {
        Ok(b * LN2_SCALED / (SCALE_FACTOR as int))
    }
}

/// Divides by a positive divisor, rounding toward zero.
fn divide(a: i128, d: i128) -> (q: i128)
    requires
        d > 0,
    ensures
        q == div_toward_zero(a as int, d as int),
{
    a / d
}

/// Computes the fixed-point quotient `q / b`.
fn ratio(q: i128, b: i128) -> (r: Result<i128, MarketError>)
    requires
        b > 0,
    ensures
        agrees(r, ratio_fixed(q as int, b as int)),
{
    match q.checked_mul(SCALE_FACTOR) {
        Some(scaled) => Ok(divide(scaled, b)),
        None => Err(MarketError::Overflow),
    }
}

/// Computes the LMSR cost function `C(q) = b * ln(e^(q_yes/b) + e^(q_no/b))`.
///
/// Fails with `InvalidLiquidity` unless `b` is positive, and with `Overflow`
/// exactly where an intermediate value leaves the 128-bit range, as
/// [`cost_fixed`] states.
pub fn cost(q_yes: i128, q_no: i128, b: i128) -> (r: Result<i128, MarketError>)
    ensures
        agrees(r, cost_fixed(q_yes as int, q_no as int, b as int)),
{
    if b <= 0 {
        return Err(MarketError::InvalidLiquidity);
    }
    let q_yes_over_b = ratio(q_yes, b)?;
    let q_no_over_b = ratio(q_no, b)?;

    let max_q = if q_yes_over_b >= q_no_over_b { q_yes_over_b } else { q_no_over_b };
    let min_q = if q_yes_over_b >= q_no_over_b { q_no_over_b } else { q_yes_over_b };

    let diff = match min_q.checked_sub(max_q) {
        Some(d) => d,
        None => { return Err(MarketError::Overflow); },
    };
    let exp_diff = exp_scaled(diff)?;
    proof {
        lemma_exp_fixed_range(diff as int);
    }
    let sum = match SCALE_FACTOR.checked_add(exp_diff) {
        Some(s) => s,
        None => { return Err(MarketError::Overflow); },
    };
    let ln_sum = ln_scaled(sum)?;

    let inside = match max_q.checked_add(ln_sum) {
        Some(i) => i,
        None => { return Err(MarketError::Overflow); },
    };
    match b.checked_mul(inside) {
        Some(product) => Ok(divide(product, SCALE_FACTOR)),
        None => Err(MarketError::Overflow),
    }
}

/// Computes the cost of buying `amount` tokens of `outcome` (0 for YES, 1
/// for NO) when `q_yes` and `q_no` tokens are outstanding.
///
/// The result is [`buy_cost_fixed`]: the amount must be positive
/// (`InvalidAmount`), the outcome must be YES or NO (`InvalidOutcome`), and
/// the failures of the cost function are passed on.
pub fn calculate_buy_cost(q_yes: i128, q_no: i128, amount: i128, outcome: u32, b: i128) -> (r: Result<
    i128,
    MarketError,
>)
    ensures
        agrees(r, buy_cost_fixed(q_yes as int, q_no as int, amount as int, outcome, b as int)),
{
    if amount <= 0 {
        return Err(MarketError::InvalidAmount);
    }
    let cost_before = cost(q_yes, q_no, b)?;

    let cost_after = if outcome == OUTCOME_YES {
        match q_yes.checked_add(amount) {
            Some(q) => cost(q, q_no, b)?,
            None => { return Err(MarketError::Overflow); },
        }
    } else if outcome == OUTCOME_NO {
        match q_no.checked_add(amount) {
            Some(q) => cost(q_yes, q, b)?,
            None => { return Err(MarketError::Overflow); },
        }
    } else {
        return Err(MarketError::InvalidOutcome);
    };

    match cost_after.checked_sub(cost_before) {
        Some(paid) => Ok(paid),
        None => Err(MarketError::Overflow),
    }
}

/// Computes the return from selling `amount` tokens of `outcome` (0 for YES,
/// 1 for NO) when `q_yes` and `q_no` tokens are outstanding.
///
/// The result is [`sell_return_fixed`]: the amount must be positive
/// (`InvalidAmount`), the outcome must be YES or NO (`InvalidOutcome`), no
/// more can be sold than is outstanding of that outcome
/// (`InsufficientBalance`), and the failures of the cost function are passed
/// on.
pub fn calculate_sell_return(q_yes: i128, q_no: i128, amount: i128, outcome: u32, b: i128) -> (r:
    Result<i128, MarketError>)
    ensures
        agrees(r, sell_return_fixed(q_yes as int, q_no as int, amount as int, outcome, b as int)),
{
    if amount <= 0 {
        return Err(MarketError::InvalidAmount);
    }
    let cost_before = cost(q_yes, q_no, b)?;

    let cost_after = if outcome == OUTCOME_YES {
        if q_yes < amount {
            return Err(MarketError::InsufficientBalance);
        }
        match q_yes.checked_sub(amount) {
            Some(q) => cost(q, q_no, b)?,
            None => { return Err(MarketError::Overflow); },
        }
    } else if outcome == OUTCOME_NO {
        if q_no < amount {
            return Err(MarketError::InsufficientBalance);
        }
        match q_no.checked_sub(amount) {
            Some(q) => cost(q_yes, q, b)?,
            None => { return Err(MarketError::Overflow); },
        }
    } else {
        return Err(MarketError::InvalidOutcome);
    };

    match cost_before.checked_sub(cost_after) {
        Some(returned) => Ok(returned),
        None => Err(MarketError::Overflow),
    }
}

/// A share of a positive sum, as a fixed-point fraction, lies between 0 and
/// 1.0.
pub proof fn lemma_share_range(part: int, sum: int)
    requires
        0 <= part <= sum,
        0 < sum,
    ensures
        0 <= part * SCALE_FACTOR / sum <= SCALE_FACTOR,
{
    assert(0 <= part * SCALE_FACTOR <= SCALE_FACTOR * sum) by (nonlinear_arith)
        requires
            0 <= part <= sum,
            SCALE_FACTOR == 10_000_000,
    ;
    lemma_div_is_ordered(0, part * SCALE_FACTOR, sum);
    lemma_div_is_ordered(part * SCALE_FACTOR, SCALE_FACTOR * sum, sum);
    lemma_div_by_multiple(SCALE_FACTOR as int, sum);
}

/// Every price lies between 0 and 1.0.
pub proof fn lemma_price_range(q_yes: int, q_no: int, outcome: u32, b: int)
    ensures
        price_fixed(q_yes, q_no, outcome, b) matches Ok(p) ==> 0 <= p <= SCALE_FACTOR,
{
    if price_fixed(q_yes, q_no, outcome, b) is Ok {
        let yes = ratio_fixed(q_yes, b)->Ok_0;
        let no = ratio_fixed(q_no, b)->Ok_0;
        lemma_exp_fixed_range(yes);
        lemma_exp_fixed_range(no);
        let sum = exp_fixed(yes) + exp_fixed(no);
        if outcome == OUTCOME_YES {
            lemma_share_range(exp_fixed(yes), sum);
        } else {
            lemma_share_range(exp_fixed(no), sum);
        }
    }
}

/// Computes the price of `outcome` (0 for YES, 1 for NO), a fixed-point
/// probability between 0 and 1.0.
///
/// The result is [`price_fixed`]. It fails with `InvalidLiquidity` unless `b`
/// is positive, with `Overflow` where a quantity over `b` exceeds 20.0 or
/// cannot be rescaled or where both exponentials vanish, and with
/// `InvalidOutcome` for any other selector.
pub fn calculate_price(q_yes: i128, q_no: i128, outcome: u32, b: i128) -> (r: Result<i128, MarketError>)
    ensures
        agrees(r, price_fixed(q_yes as int, q_no as int, outcome, b as int)),
        r matches Ok(p) ==> 0 <= p <= SCALE_FACTOR,
{
    if b <= 0 {
        return Err(MarketError::InvalidLiquidity);
    }
    let q_yes_over_b = ratio(q_yes, b)?;
    let q_no_over_b = ratio(q_no, b)?;

    let exp_yes = exp_scaled(q_yes_over_b)?;
    let exp_no = exp_scaled(q_no_over_b)?;
    proof {
        lemma_exp_fixed_range(q_yes_over_b as int);
        lemma_exp_fixed_range(q_no_over_b as int);
        lemma_price_range(q_yes as int, q_no as int, outcome, b as int);
    }
    let sum = match exp_yes.checked_add(exp_no) {
        Some(s) => s,
        None => { return Err(MarketError::Overflow); },
    };
    if sum == 0 {
        return Err(MarketError::Overflow);
    }
    if outcome == OUTCOME_YES {
        match exp_yes.checked_mul(SCALE_FACTOR) {
            Some(scaled) => Ok(divide(scaled, sum)),
            None => Err(MarketError::Overflow),
        }
    } else if outcome == OUTCOME_NO {
        match exp_no.checked_mul(SCALE_FACTOR) {
            Some(scaled) => Ok(divide(scaled, sum)),
            None => Err(MarketError::Overflow),
        }
    } else {
        Err(MarketError::InvalidOutcome)
    }
}

/// Computes the collateral required to seed a market: `b * ln(2)`, rounded
/// down.
///
/// Fails with `InvalidLiquidity` unless `b` is positive and with `Overflow`
/// where `b * ln(2)` leaves the 128-bit range before rescaling.
pub fn initial_liquidity(b: i128) -> (r: Result<i128, MarketError>)
    ensures
        agrees(r, initial_liquidity_fixed(b as int)),
        r matches Ok(v) ==> v * SCALE_FACTOR <= b * LN2_SCALED < (v + 1) * SCALE_FACTOR,
{
    if b <= 0 {
        return Err(MarketError::InvalidLiquidity);
    }
    match b.checked_mul(LN2_SCALED) {
        Some(product) => {
            proof {
                lemma_fundamental_div_mod(product as int, SCALE_FACTOR as int);
            }
            Ok(divide(product, SCALE_FACTOR))
        },
        None => Err(MarketError::Overflow),
    }
}

/// With nothing outstanding, both outcomes are priced at exactly one half,
/// whatever the liquidity parameter.
pub proof fn lemma_price_at_equilibrium(b: int)
    requires
        b > 0,
    ensures
        price_fixed(0, 0, OUTCOME_YES, b) == Ok::<int, MarketError>(SCALE_FACTOR / 2),
        price_fixed(0, 0, OUTCOME_NO, b) == Ok::<int, MarketError>(SCALE_FACTOR / 2),
{
    lemma_exp_fixed_of_zero();
    assert(0 * SCALE_FACTOR == 0);
    assert(0int / b == 0) by (nonlinear_arith)
        requires
            b > 0,
    ;
    assert(ratio_fixed(0, b) == Ok::<int, MarketError>(0));
    assert(SCALE_FACTOR * SCALE_FACTOR / (SCALE_FACTOR + SCALE_FACTOR) == SCALE_FACTOR / 2) by {
        assert(SCALE_FACTOR * SCALE_FACTOR == 100_000_000_000_000) by (nonlinear_arith)
            requires
                SCALE_FACTOR == 10_000_000,
        ;
    }
}

/// Buying and at once selling the same amount of the same outcome returns
/// exactly what was paid: where the purchase succeeds on nonnegative
/// quantities, the sale from the quantities it leaves succeeds with the same
/// value.
pub proof fn lemma_round_trip(q_yes: int, q_no: int, amount: int, outcome: u32, b: int)
    requires
        outstanding(q_yes, q_no, outcome) >= 0,
        fits_i128(q_yes),
        fits_i128(q_no),
        buy_cost_fixed(q_yes, q_no, amount, outcome, b) is Ok,
    ensures
        ({
            let bought = quantities_after(q_yes, q_no, amount, outcome);
            sell_return_fixed(bought.0, bought.1, amount, outcome, b) == buy_cost_fixed(
                q_yes,
                q_no,
                amount,
                outcome,
                b,
            )
        }),
{
}

/// No more can be sold than is outstanding: where the cost function can be
/// computed, a sale of more tokens of an outcome than were issued fails with
/// `InsufficientBalance`.
pub proof fn lemma_sell_more_than_outstanding(q_yes: int, q_no: int, amount: int, outcome: u32, b: int)
    requires
        amount > 0,
        outcome == OUTCOME_YES || outcome == OUTCOME_NO,
        cost_fixed(q_yes, q_no, b) is Ok,
        outstanding(q_yes, q_no, outcome) < amount,
    ensures
        sell_return_fixed(q_yes, q_no, amount, outcome, b) == Err::<int, MarketError>(
            MarketError::InsufficientBalance,
        ),
{
}

} // verus!
