use lmsr_market::address::Address;
use lmsr_market::error::MarketError;
use lmsr_market::fixed_point::SCALE_FACTOR;
use lmsr_market::market::LmsrMarket;
use lmsr_market::model::{BPS_DENOMINATOR, CLAIM_FEE_BPS};

/// An initialized market with liquidity 100 and funding 70, its oracle and
/// its collateral token.
fn setup_test() -> (LmsrMarket, Address, Address) {
    setup_test_with_params(100 * SCALE_FACTOR, 70 * SCALE_FACTOR)
}

fn setup_test_with_params(liquidity_param: i128, initial_funding: i128) -> (LmsrMarket, Address, Address) {
    let oracle = Address::from_str("GORACLE");
    let token_address = Address::from_str("CTOKEN");
    let mut market = LmsrMarket::new();
    market
        .initialize(
            oracle.clone(),
            token_address.clone(),
            liquidity_param,
            String::from("QmTest"),
            initial_funding,
        )
        .expect("initialization failed");
    (market, oracle, token_address)
}

fn pool_of(market: &LmsrMarket) -> i128 {
    let (_, _, pool, _) = market.get_state().unwrap();
    pool
}

#[test]
fn lib_test_initialize() {
    let (market, oracle, _token_address) = setup_test();

    let b = 100 * SCALE_FACTOR;

    // Verify initialization worked
    assert_eq!(market.get_oracle().unwrap(), oracle);
    assert_eq!(market.get_liquidity_param().unwrap(), b);
}

#[test]
fn test_buy() {
    let (mut market, _oracle, _token_address) = setup_test();

    let user = Address::from_str("GUSER");

    // Buy YES tokens
    let amount = 10 * SCALE_FACTOR;
    let max_cost = 50 * SCALE_FACTOR;
    let cost = market.buy(&user, 0, amount, max_cost).unwrap();

    assert!(cost > 0);
    assert_eq!(market.get_balance(&user, 0), amount);
}

#[test]
fn test_resolve_and_claim() {
    let (mut market, oracle, _token_address) = setup_test();

    // User buys YES tokens
    let user = Address::from_str("GUSER");

    let amount = 10 * SCALE_FACTOR;
    market.buy(&user, 0, amount, 50 * SCALE_FACTOR).unwrap();

    // Resolve market with YES winning
    market.resolve(&oracle, 0).unwrap();

    // User claims winnings (minus 2% fee)
    let payout = market.claim(&user).unwrap();
    let expected_payout = amount - (amount * CLAIM_FEE_BPS / BPS_DENOMINATOR);
    assert_eq!(payout, expected_payout);
}

#[test]
fn lib_test_price_at_equilibrium() {
    let (market, _oracle, _token_address) = setup_test();

    // At equilibrium (no tokens sold), price should be ~0.5
    let price_yes = market.get_price(0).unwrap();
    let price_no = market.get_price(1).unwrap();

    assert!(
        price_yes >= 4_900_000 && price_yes <= 5_100_000,
        "Expected price_yes near 5_000_000, got {}",
        price_yes
    );
    assert!(
        price_no >= 4_900_000 && price_no <= 5_100_000,
        "Expected price_no near 5_000_000, got {}",
        price_no
    );
}

// --- Authorization tests ---

#[test]
fn test_resolve_by_non_oracle_fails() {
    let (mut market, _oracle, _token_address) = setup_test();

    // Try to resolve with non-oracle address
    let attacker = Address::from_str("GATTACKER");
    let result = market.resolve(&attacker, 0);
    assert_eq!(result, Err(MarketError::Unauthorized));
    assert_eq!(result.unwrap_err().code(), 10);
}

// --- Double-claim prevention tests ---

#[test]
fn test_double_claim_fails() {
    let (mut market, oracle, _token_address) = setup_test();

    // User buys YES tokens
    let user = Address::from_str("GUSER");

    let amount = 10 * SCALE_FACTOR;
    market.buy(&user, 0, amount, 50 * SCALE_FACTOR).unwrap();

    // Resolve market with YES winning
    market.resolve(&oracle, 0).unwrap();

    // First claim succeeds
    market.claim(&user).unwrap();

    // Second claim should fail
    let result = market.claim(&user);
    assert_eq!(result, Err(MarketError::NothingToClaim));
    assert_eq!(result.unwrap_err().code(), 13);
}

// --- Slippage protection tests ---

#[test]
fn test_buy_slippage_exceeded() {
    let (mut market, _oracle, _token_address) = setup_test();

    let user = Address::from_str("GUSER");

    // Try to buy with max_cost = 0 (impossible)
    let amount = 10 * SCALE_FACTOR;
    let result = market.buy(&user, 0, amount, 0);
    assert_eq!(result, Err(MarketError::SlippageExceeded));
    assert_eq!(result.unwrap_err().code(), 8);
}

#[test]
fn test_sell_min_return_not_met() {
    let (mut market, _oracle, _token_address) = setup_test();

    let user = Address::from_str("GUSER");

    // First buy some tokens
    let amount = 10 * SCALE_FACTOR;
    market.buy(&user, 0, amount, 50 * SCALE_FACTOR).unwrap();

    // Try to sell with impossibly high min_return
    let result = market.sell(&user, 0, amount, i128::MAX / 2);
    assert_eq!(result, Err(MarketError::ReturnTooLow));
    assert_eq!(result.unwrap_err().code(), 9);
}

// --- Sell function tests ---

#[test]
fn test_sell_basic() {
    let (mut market, _oracle, _token_address) = setup_test();

    let user = Address::from_str("GUSER");

    // Buy tokens
    let amount = 10 * SCALE_FACTOR;
    let buy_cost = market.buy(&user, 0, amount, 50 * SCALE_FACTOR).unwrap();
    assert_eq!(market.get_balance(&user, 0), amount);

    // Sell half the tokens
    let sell_amount = 5 * SCALE_FACTOR;
    let sell_return = market.sell(&user, 0, sell_amount, 0).unwrap();
    assert!(sell_return > 0, "Sell return should be positive");
    assert_eq!(market.get_balance(&user, 0), amount - sell_amount);

    // Sell return should be less than buy cost (round-trip loss expected)
    assert!(
        sell_return < buy_cost,
        "Selling should return less than buying cost due to price movement"
    );
}

#[test]
fn test_sell_insufficient_balance() {
    let (mut market, _oracle, _token_address) = setup_test();

    let user = Address::from_str("GUSER");

    // Buy a small amount
    market.buy(&user, 0, 5 * SCALE_FACTOR, 50 * SCALE_FACTOR).unwrap();

    // Try to sell more than owned
    let result = market.sell(&user, 0, 10 * SCALE_FACTOR, 0);
    assert_eq!(result, Err(MarketError::InsufficientBalance));
    assert_eq!(result.unwrap_err().code(), 7);
}

#[test]
fn test_sell_after_resolution_fails() {
    let (mut market, oracle, _token_address) = setup_test();

    let user = Address::from_str("GUSER");

    // Buy tokens
    market.buy(&user, 0, 10 * SCALE_FACTOR, 50 * SCALE_FACTOR).unwrap();

    // Resolve market
    market.resolve(&oracle, 0).unwrap();

    // Try to sell after resolution
    let result = market.sell(&user, 0, 5 * SCALE_FACTOR, 0);
    assert_eq!(result, Err(MarketError::AlreadyResolved));
    assert_eq!(result.unwrap_err().code(), 3);
}

// --- Market lifecycle error state tests ---

#[test]
fn test_buy_on_resolved_market() {
    let (mut market, oracle, _token_address) = setup_test();

    // Resolve immediately
    market.resolve(&oracle, 0).unwrap();

    // Try to buy after resolution
    let user = Address::from_str("GUSER");
    let result = market.buy(&user, 0, 10 * SCALE_FACTOR, 50 * SCALE_FACTOR);
    assert_eq!(result, Err(MarketError::AlreadyResolved));
    assert_eq!(result.unwrap_err().code(), 3);
}

#[test]
fn test_claim_on_unresolved_market() {
    let (mut market, _oracle, _token_address) = setup_test();

    let user = Address::from_str("GUSER");

    // Buy tokens but don't resolve
    market.buy(&user, 0, 10 * SCALE_FACTOR, 50 * SCALE_FACTOR).unwrap();

    // Try to claim without resolution
    let result = market.claim(&user);
    assert_eq!(result, Err(MarketError::NotResolved));
    assert_eq!(result.unwrap_err().code(), 4);
}

#[test]
fn test_loser_cannot_claim() {
    let (mut market, oracle, _token_address) = setup_test();

    let user = Address::from_str("GUSER");

    // User buys NO tokens
    market.buy(&user, 1, 10 * SCALE_FACTOR, 50 * SCALE_FACTOR).unwrap();

    // Resolve market with YES winning (user loses)
    market.resolve(&oracle, 0).unwrap();

    // Loser tries to claim
    let result = market.claim(&user);
    assert_eq!(result, Err(MarketError::NothingToClaim));
    assert_eq!(result.unwrap_err().code(), 13);
}

// --- Withdraw remaining tests ---

#[test]
fn test_withdraw_remaining_after_claims() {
    let (mut market, oracle, _token_address) = setup_test();

    let winner = Address::from_str("GWINNER");
    let loser = Address::from_str("GLOSER");

    // Winner buys YES, loser buys NO
    let yes_cost = market.buy(&winner, 0, 10 * SCALE_FACTOR, 50 * SCALE_FACTOR).unwrap();
    let no_cost = market.buy(&loser, 1, 10 * SCALE_FACTOR, 50 * SCALE_FACTOR).unwrap();

    // Check pool increased (initial_funding is 70 * SCALE_FACTOR from setup_test)
    let (_, _, pool_before, _) = market.get_state().unwrap();
    assert_eq!(pool_before, 70 * SCALE_FACTOR + yes_cost + no_cost);

    // Resolve: YES wins
    market.resolve(&oracle, 0).unwrap();

    // Winner claims (minus 2% fee)
    let payout = market.claim(&winner).unwrap();
    let expected_payout = 10 * SCALE_FACTOR - (10 * SCALE_FACTOR * CLAIM_FEE_BPS / BPS_DENOMINATOR);
    assert_eq!(payout, expected_payout); // 1:1 redemption minus 2% fee

    // Pool should have remaining funds (loser's money + part of initial funding)
    let (_, _, pool_after_claim, _) = market.get_state().unwrap();
    assert!(pool_after_claim > 0, "Pool should have remaining funds");

    // Oracle withdraws remaining
    let withdrawn = market.withdraw_remaining(&oracle).unwrap();
    assert_eq!(withdrawn, pool_after_claim);

    // Pool should be zero now
    let (_, _, pool_final, _) = market.get_state().unwrap();
    assert_eq!(pool_final, 0);
}

#[test]
fn test_withdraw_remaining_no_trades() {
    let (mut market, oracle, _token_address) = setup_test();

    // No trades, just resolve
    market.resolve(&oracle, 0).unwrap();

    // Oracle can withdraw entire initial funding (70 * SCALE_FACTOR from setup_test)
    let withdrawn = market.withdraw_remaining(&oracle).unwrap();
    assert_eq!(withdrawn, 70 * SCALE_FACTOR);
}

#[test]
fn test_withdraw_remaining_before_resolve() {
    let (mut market, oracle, _token_address) = setup_test();

    // Try to withdraw before resolution
    let result = market.withdraw_remaining(&oracle);
    assert_eq!(result, Err(MarketError::NotResolved));
    assert_eq!(result.unwrap_err().code(), 4);
}

#[test]
fn test_withdraw_remaining_non_oracle() {
    let (mut market, oracle, _token_address) = setup_test();

    market.resolve(&oracle, 0).unwrap();

    // Non-oracle tries to withdraw
    let attacker = Address::from_str("GATTACKER");
    let result = market.withdraw_remaining(&attacker);
    assert_eq!(result, Err(MarketError::Unauthorized));
    assert_eq!(result.unwrap_err().code(), 10);
}

#[test]
fn test_withdraw_remaining_twice() {
    let (mut market, oracle, _token_address) = setup_test();

    market.resolve(&oracle, 0).unwrap();

    // First withdrawal succeeds
    market.withdraw_remaining(&oracle).unwrap();

    // Second withdrawal should fail
    let result = market.withdraw_remaining(&oracle);
    assert_eq!(result, Err(MarketError::NothingToClaim));
    assert_eq!(result.unwrap_err().code(), 13);
}

// --- Quote validation tests ---

#[test]
fn test_get_quote_invalid_outcome() {
    let (market, _oracle, _token_address) = setup_test();

    // Try to get quote with invalid outcome
    let result = market.get_quote(99, 10 * SCALE_FACTOR);
    assert_eq!(result, Err(MarketError::InvalidOutcome));
    assert_eq!(result.unwrap_err().code(), 5);
}

#[test]
fn test_get_quote_zero_amount() {
    let (market, _oracle, _token_address) = setup_test();

    // Try to get quote with zero amount
    let result = market.get_quote(0, 0);
    assert_eq!(result, Err(MarketError::InvalidAmount));
    assert_eq!(result.unwrap_err().code(), 6);
}

// --- Double resolution prevention test ---

#[test]
fn test_double_resolve_fails() {
    let (mut market, oracle, _token_address) = setup_test();

    // First resolution succeeds
    market.resolve(&oracle, 0).unwrap();

    // Second resolution should fail
    let result = market.resolve(&oracle, 1);
    assert_eq!(result, Err(MarketError::AlreadyResolved));
    assert_eq!(result.unwrap_err().code(), 3);
    assert_eq!(market.get_winning_outcome(), Ok(0));
}

// --- Insufficient initial funding test ---

#[test]
fn test_initialize_insufficient_funding() {
    let oracle = Address::from_str("GORACLE");
    let token_address = Address::from_str("CTOKEN");

    let b = 100 * SCALE_FACTOR;
    // Required funding is b * ln(2) ≈ 69.3, so 50 is insufficient
    let insufficient_funding = 50 * SCALE_FACTOR;

    let mut market = LmsrMarket::new();
    let result = market.initialize(
        oracle.clone(),
        token_address.clone(),
        b,
        String::from("QmTest"),
        insufficient_funding,
    );
    assert_eq!(result, Err(MarketError::InvalidAmount));
    assert_eq!(market.get_oracle(), Err(MarketError::NotInitialized));
}

// --- Invalid outcome tests for buy/sell/resolve ---

#[test]
fn test_buy_invalid_outcome() {
    let (mut market, _oracle, _token_address) = setup_test();

    let user = Address::from_str("GUSER");

    // Try to buy with invalid outcome (99)
    let result = market.buy(&user, 99, 10 * SCALE_FACTOR, 50 * SCALE_FACTOR);
    assert_eq!(result, Err(MarketError::InvalidOutcome));
    assert_eq!(result.unwrap_err().code(), 5);
}

#[test]
fn test_sell_invalid_outcome() {
    let (mut market, _oracle, _token_address) = setup_test();

    let user = Address::from_str("GUSER");

    // First buy some valid tokens
    market.buy(&user, 0, 10 * SCALE_FACTOR, 50 * SCALE_FACTOR).unwrap();

    // Try to sell with invalid outcome (99)
    let result = market.sell(&user, 99, 5 * SCALE_FACTOR, 0);
    assert_eq!(result, Err(MarketError::InvalidOutcome));
    assert_eq!(result.unwrap_err().code(), 5);
}

#[test]
fn test_resolve_invalid_outcome() {
    let (mut market, oracle, _token_address) = setup_test();

    // Try to resolve with invalid outcome (99)
    let result = market.resolve(&oracle, 99);
    assert_eq!(result, Err(MarketError::InvalidOutcome));
    assert_eq!(result.unwrap_err().code(), 5);
}

// --- Zero/negative amount tests ---

#[test]
fn test_buy_zero_amount() {
    let (mut market, _oracle, _token_address) = setup_test();

    let user = Address::from_str("GUSER");

    // Try to buy zero amount
    let result = market.buy(&user, 0, 0, 50 * SCALE_FACTOR);
    assert_eq!(result, Err(MarketError::InvalidAmount));
    assert_eq!(result.unwrap_err().code(), 6);
}

#[test]
fn test_buy_negative_amount() {
    let (mut market, _oracle, _token_address) = setup_test();

    let user = Address::from_str("GUSER");

    // Try to buy negative amount
    let result = market.buy(&user, 0, -10 * SCALE_FACTOR, 50 * SCALE_FACTOR);
    assert_eq!(result, Err(MarketError::InvalidAmount));
    assert_eq!(result.unwrap_err().code(), 6);
}

// --- Multiple users scenario ---

#[test]
fn test_multiple_users_claim_correctly() {
    let (mut market, oracle, _token_address) = setup_test();

    // User1 buys YES, User2 buys NO
    let user1 = Address::from_str("GUSER1");
    let user2 = Address::from_str("GUSER2");

    let amount1 = 10 * SCALE_FACTOR;
    let amount2 = 8 * SCALE_FACTOR;
    market.buy(&user1, 0, amount1, 50 * SCALE_FACTOR).unwrap(); // YES
    market.buy(&user2, 1, amount2, 50 * SCALE_FACTOR).unwrap(); // NO

    // Resolve with YES winning
    market.resolve(&oracle, 0).unwrap();

    // User1 (winner) claims successfully (minus 2% fee)
    let payout1 = market.claim(&user1).unwrap();
    let expected_payout1 = amount1 - (amount1 * CLAIM_FEE_BPS / BPS_DENOMINATOR);
    assert_eq!(payout1, expected_payout1);

    // User2's balance should be 0 for winning outcome
    assert_eq!(market.get_balance(&user2, 0), 0);
}

// --- Claim fee tests ---

#[test]
fn test_claim_fee_calculation() {
    let (mut market, oracle, _token_address) = setup_test();

    let user = Address::from_str("GUSER");

    // Buy exactly 100 tokens (for easy math)
    let amount = 100 * SCALE_FACTOR;
    market.buy(&user, 0, amount, 100 * SCALE_FACTOR).unwrap();

    let (_, _, pool_before, _) = market.get_state().unwrap();

    // Resolve: YES wins
    market.resolve(&oracle, 0).unwrap();

    // Claim and verify 2% fee
    let payout = market.claim(&user).unwrap();

    // 2% of 100 = 2, so payout should be 98
    let expected_fee = 2 * SCALE_FACTOR;
    let expected_payout = amount - expected_fee;
    assert_eq!(payout, expected_payout, "Expected 98% payout after 2% fee");

    // Verify fee stayed in pool
    let (_, _, pool_after, _) = market.get_state().unwrap();
    assert_eq!(pool_after, pool_before - expected_payout, "Fee should remain in pool");
}

#[test]
fn test_oracle_collects_accumulated_fees_from_multiple_claims() {
    let (mut market, oracle, _token_address) = setup_test();

    // Three users: two winners (YES), one loser (NO)
    let winner1 = Address::from_str("GWINNER1");
    let winner2 = Address::from_str("GWINNER2");
    let loser = Address::from_str("GLOSER");

    // Winner1 buys 100 YES, Winner2 buys 50 YES, Loser buys 30 NO
    let amount1 = 100 * SCALE_FACTOR;
    let amount2 = 50 * SCALE_FACTOR;
    let amount3 = 30 * SCALE_FACTOR;
    market.buy(&winner1, 0, amount1, 100 * SCALE_FACTOR).unwrap();
    market.buy(&winner2, 0, amount2, 100 * SCALE_FACTOR).unwrap();
    market.buy(&loser, 1, amount3, 50 * SCALE_FACTOR).unwrap();

    let (_, _, _pool_after_buys, _) = market.get_state().unwrap();

    // Resolve: YES wins
    market.resolve(&oracle, 0).unwrap();

    // Both winners claim
    let payout1 = market.claim(&winner1).unwrap();
    let payout2 = market.claim(&winner2).unwrap();

    // Verify payouts are 98% of token amounts
    let expected_fee1 = amount1 * CLAIM_FEE_BPS / BPS_DENOMINATOR; // 2% of 100 = 2
    let expected_fee2 = amount2 * CLAIM_FEE_BPS / BPS_DENOMINATOR; // 2% of 50 = 1
    assert_eq!(payout1, amount1 - expected_fee1);
    assert_eq!(payout2, amount2 - expected_fee2);

    // Total fees accumulated: 2 + 1 = 3 SCALE_FACTOR
    let total_fees = expected_fee1 + expected_fee2;

    let (_, _, pool_after_claims, _) = market.get_state().unwrap();
    assert!(pool_after_claims > 0, "Pool should have remaining funds");

    // Oracle withdraws everything remaining
    let withdrawn = market.withdraw_remaining(&oracle).unwrap();
    assert_eq!(withdrawn, pool_after_claims);

    // Verify oracle got at least the accumulated fees
    assert!(
        withdrawn >= total_fees,
        "Oracle should receive at least the accumulated fees: {} >= {}",
        withdrawn,
        total_fees
    );

    // Pool should be empty now
    let (_, _, pool_final, _) = market.get_state().unwrap();
    assert_eq!(pool_final, 0);
}

#[test]
fn test_claim_fee_small_amount_truncation() {
    // The fee rounds to 0 for tiny amounts, by integer division.
    let (mut market, oracle, _token_address) = setup_test();

    let user = Address::from_str("GUSER");

    // Buy 49 units (below threshold where fee = 0)
    // Fee calculation: 49 * 200 / 10000 = 9800 / 10000 = 0 (integer truncation)
    let tiny_amount: i128 = 49;
    market.buy(&user, 0, tiny_amount, SCALE_FACTOR).unwrap();

    market.resolve(&oracle, 0).unwrap();

    let payout = market.claim(&user).unwrap();

    // With amount = 49, fee = 49 * 200 / 10000 = 0 (truncated)
    assert_eq!(
        payout, tiny_amount,
        "Dust amounts should have zero fee due to integer truncation"
    );
}

// --- Sell all tokens to equilibrium ---

#[test]
fn test_sell_all_returns_to_near_equilibrium() {
    let (mut market, _oracle, _token_address) = setup_test();

    let user = Address::from_str("GUSER");

    // Buy tokens
    let amount = 10 * SCALE_FACTOR;
    let buy_cost = market.buy(&user, 0, amount, 50 * SCALE_FACTOR).unwrap();

    // Get state after buy
    let (q_yes_after_buy, _, _, _) = market.get_state().unwrap();
    assert_eq!(q_yes_after_buy, amount);

    // Sell all back
    let sell_return = market.sell(&user, 0, amount, 0).unwrap();

    // Get state after sell
    let (q_yes_after_sell, q_no_after_sell, _, _) = market.get_state().unwrap();
    assert_eq!(q_yes_after_sell, 0);
    assert_eq!(q_no_after_sell, 0);

    // User balance should be 0
    assert_eq!(market.get_balance(&user, 0), 0);

    // LMSR is symmetric: buying and immediately selling the same amount
    // returns exactly what was paid (no spread).
    assert_eq!(
        sell_return, buy_cost,
        "LMSR symmetric round-trip: sell_return={}, buy_cost={}",
        sell_return, buy_cost
    );
}

// --- get_sell_quote tests ---

#[test]
fn test_get_sell_quote_basic() {
    let (mut market, _oracle, _token_address) = setup_test();

    let user = Address::from_str("GUSER");

    // Buy tokens first
    let amount = 10 * SCALE_FACTOR;
    market.buy(&user, 0, amount, 50 * SCALE_FACTOR).unwrap();

    // Get sell quote
    let (return_amount, price_after) = market.get_sell_quote(0, amount).unwrap();

    assert!(return_amount > 0, "Sell return should be positive");
    assert!(
        price_after >= 0 && price_after <= SCALE_FACTOR,
        "Price after should be in [0, 1]"
    );
}

#[test]
fn test_get_sell_quote_invalid_outcome() {
    let (market, _oracle, _token_address) = setup_test();

    // Try to get sell quote with invalid outcome
    let result = market.get_sell_quote(99, 10 * SCALE_FACTOR);
    assert_eq!(result, Err(MarketError::InvalidOutcome));
    assert_eq!(result.unwrap_err().code(), 5);
}

// --- Further cases ---

#[test]
fn operations_on_a_market_that_is_not_initialized() {
    let mut market = LmsrMarket::new();
    let user = Address::from_str("GUSER");
    assert_eq!(market.buy(&user, 0, 10, 10), Err(MarketError::NotInitialized));
    assert_eq!(market.sell(&user, 0, 10, 0), Err(MarketError::NotInitialized));
    assert_eq!(market.resolve(&user, 0), Err(MarketError::NotInitialized));
    assert_eq!(market.claim(&user), Err(MarketError::NotInitialized));
    assert_eq!(market.withdraw_remaining(&user), Err(MarketError::NotInitialized));
    assert_eq!(market.get_price(0), Err(MarketError::NotInitialized));
    assert_eq!(market.get_quote(0, 10), Err(MarketError::NotInitialized));
    assert_eq!(market.get_sell_quote(0, 10), Err(MarketError::NotInitialized));
    assert_eq!(market.get_state(), Err(MarketError::NotInitialized));
    assert_eq!(market.get_liquidity_param(), Err(MarketError::NotInitialized));
    assert_eq!(market.get_winning_outcome(), Err(MarketError::NotInitialized));
    assert_eq!(market.get_metadata_hash(), Err(MarketError::NotInitialized));
    assert_eq!(market.get_collateral_token(), Err(MarketError::NotInitialized));
    assert_eq!(market.get_balance(&user, 0), 0);
    assert_eq!(MarketError::NotInitialized.code(), 2);
}

#[test]
fn initialize_errors() {
    let oracle = Address::from_str("GORACLE");
    let token = Address::from_str("CTOKEN");
    let b = 100 * SCALE_FACTOR;

    let mut market = LmsrMarket::new();
    assert_eq!(
        market.initialize(oracle.clone(), token.clone(), 0, String::from("Qm"), 70 * SCALE_FACTOR),
        Err(MarketError::InvalidLiquidity)
    );
    assert_eq!(
        market.initialize(oracle.clone(), token.clone(), -b, String::from("Qm"), 70 * SCALE_FACTOR),
        Err(MarketError::InvalidLiquidity)
    );
    assert_eq!(
        market.initialize(oracle.clone(), token.clone(), i128::MAX, String::from("Qm"), i128::MAX),
        Err(MarketError::Overflow)
    );
    // One unit short of b * ln(2).
    assert_eq!(
        market.initialize(oracle.clone(), token.clone(), b, String::from("Qm"), 693_147_199),
        Err(MarketError::InvalidAmount)
    );
    assert_eq!(
        market.initialize(oracle.clone(), token.clone(), b, String::from("Qm"), i128::MAX / 2 + 1),
        Err(MarketError::Overflow)
    );
    assert_eq!(
        market.initialize(oracle.clone(), token.clone(), b, String::from("Qm"), 693_147_200),
        Ok(())
    );
    assert_eq!(
        market.initialize(oracle.clone(), token.clone(), b, String::from("Qm"), 70 * SCALE_FACTOR),
        Err(MarketError::AlreadyInitialized)
    );
    assert_eq!(market.get_state(), Ok((0, 0, 693_147_200, false)));
    assert_eq!(market.get_metadata_hash(), Ok(String::from("Qm")));
    assert_eq!(market.get_collateral_token(), Ok(token));
    assert_eq!(market.get_winning_outcome(), Err(MarketError::NotResolved));
}

#[test]
fn buy_and_sell_exact_values() {
    let (mut market, _oracle, _token) = setup_test();
    let alice = Address::from_str("GALICE");
    let bob = Address::from_str("GBOB");

    assert_eq!(market.get_quote(0, 10 * SCALE_FACTOR), Ok((50_474_900, 5_249_791)));
    assert_eq!(market.buy(&alice, 0, 10 * SCALE_FACTOR, 50_474_900), Ok(50_474_900));
    assert_eq!(market.buy(&bob, 0, 10 * SCALE_FACTOR, 50_474_900), Err(MarketError::SlippageExceeded));
    assert_eq!(market.get_price(0), Ok(5_249_791));
    assert_eq!(market.get_state(), Ok((10 * SCALE_FACTOR, 0, 750_474_900, false)));

    // Bob holds nothing and cannot sell what Alice holds.
    assert_eq!(market.sell(&bob, 0, SCALE_FACTOR, 0), Err(MarketError::InsufficientBalance));
    assert_eq!(market.sell(&alice, 1, SCALE_FACTOR, 0), Err(MarketError::InsufficientBalance));

    assert_eq!(market.get_sell_quote(0, 5 * SCALE_FACTOR), Ok((28_726_400, 5_124_973)));
    assert_eq!(market.sell(&alice, 0, 5 * SCALE_FACTOR, 28_726_401), Err(MarketError::ReturnTooLow));
    assert_eq!(market.sell(&alice, 0, 5 * SCALE_FACTOR, 28_726_400), Ok(28_726_400));
    assert_eq!(market.get_state(), Ok((5 * SCALE_FACTOR, 0, 721_748_500, false)));
    assert_eq!(market.get_balance(&alice, 0), 5 * SCALE_FACTOR);
    assert_eq!(market.get_balance(&alice, 1), 0);
}

#[test]
fn conservation_over_a_market_s_life() {
    let funding = 70 * SCALE_FACTOR;
    let (mut market, oracle, _token) = setup_test();
    let alice = Address::from_str("GALICE");
    let bob = Address::from_str("GBOB");
    let mut expected = funding;

    expected += market.buy(&alice, 0, 30 * SCALE_FACTOR, i128::MAX).unwrap();
    assert_eq!(pool_of(&market), expected);
    expected += market.buy(&bob, 1, 20 * SCALE_FACTOR, i128::MAX).unwrap();
    assert_eq!(pool_of(&market), expected);
    expected -= market.sell(&alice, 0, 10 * SCALE_FACTOR, 0).unwrap();
    assert_eq!(pool_of(&market), expected);
    // A failed operation moves nothing.
    assert!(market.sell(&bob, 0, SCALE_FACTOR, 0).is_err());
    assert_eq!(pool_of(&market), expected);

    market.resolve(&oracle, 1).unwrap();
    assert_eq!(pool_of(&market), expected);
    expected -= market.claim(&bob).unwrap();
    assert_eq!(pool_of(&market), expected);
    assert!(market.claim(&alice).is_err());
    assert_eq!(pool_of(&market), expected);
    let withdrawn = market.withdraw_remaining(&oracle).unwrap();
    assert_eq!(withdrawn, expected);
    assert_eq!(pool_of(&market), 0);
}

#[test]
fn a_small_purchase_near_equilibrium_is_priced_below_zero() {
    // Close below 2.0 the logarithm series undershoots, so that a small
    // purchase at equal quantities has a negative cost, which the pool pays.
    let b = 100 * SCALE_FACTOR;
    let (mut market, _oracle, _token) = setup_test_with_params(b, 693_147_200);
    let user = Address::from_str("GUSER");
    assert_eq!(market.buy(&user, 0, 100, 0), Ok(-16_389_100));
    assert_eq!(market.get_state(), Ok((100, 0, 693_147_200 - 16_389_100, false)));
    assert_eq!(market.get_balance(&user, 0), 100);
}

#[test]
fn buy_cost_grows_with_the_amount_on_ordinary_trades() {
    let (market, _oracle, _token) = setup_test();
    let mut last = 0;
    for amount in [10, 20, 30, 50, 100] {
        let (cost, _) = market.get_quote(0, amount * SCALE_FACTOR).unwrap();
        assert!(cost > last, "cost of {} is {}", amount, cost);
        last = cost;
    }
    assert_eq!(market.get_quote(0, 30 * SCALE_FACTOR).unwrap().0, 161_206_300);
    assert_eq!(market.get_quote(0, 50 * SCALE_FACTOR).unwrap().0, 280_929_900);
    // It does not on every trade: one unit costs nothing, a hundred units
    // cost less than nothing.
    assert_eq!(market.get_quote(0, 1).unwrap().0, 0);
    assert_eq!(market.get_quote(0, 100).unwrap().0, -16_389_100);
}

#[test]
fn claim_fee_is_rounded_down() {
    let (mut market, oracle, _token) = setup_test();
    let small = Address::from_str("GSMALL");
    let edge = Address::from_str("GEDGE");
    market.buy(&small, 0, 49, SCALE_FACTOR).unwrap();
    market.buy(&edge, 0, 50, SCALE_FACTOR).unwrap();
    market.resolve(&oracle, 0).unwrap();
    assert_eq!(market.claim(&small), Ok(49));
    assert_eq!(market.claim(&edge), Ok(49));
    assert_eq!(market.get_balance(&small, 0), 0);
    assert_eq!(market.get_balance(&edge, 0), 0);
}

#[test]
fn addresses_compare_by_their_text() {
    let a = Address::from_str("GABC");
    let b = Address::new(String::from("GABC"));
    let c = Address::from_str("GABD");
    assert_eq!(a, b);
    assert_ne!(a, c);
    assert_eq!(a.clone(), a);
    assert_eq!(a.as_str(), "GABC");
}
