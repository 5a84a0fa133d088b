//! The market as a mathematical state machine.
//!
//! [`MarketState`] is the abstract state of a market. For each operation a
//! pair of spec functions says what the operation returns from a state and
//! which state a successful operation leaves; a failed operation leaves the
//! state as it was. The executable market is proved to follow these
//! functions exactly, and the laws of the market are proved about them here.

use vstd::prelude::*;
use crate::error::MarketError;
use crate::fixed_point::{fits_i128, LN2_SCALED};
use crate::lmsr::{
    buy_cost_fixed, initial_liquidity_fixed, lemma_round_trip, price_fixed, quantities_after,
    sell_return_fixed, OUTCOME_NO, OUTCOME_YES,
};
use crate::positions::{
    balance_of, balances_valid, held_in, lemma_held_bounds, lemma_held_insert, PositionKey,
};

verus! {

/// The fee kept from a claimed balance, in basis points.
pub const CLAIM_FEE_BPS: i128 = 200;

/// The number of basis points in the whole.
pub const BPS_DENOMINATOR: i128 = 10_000;

/// The largest funding that a market accepts: half of the largest 128-bit
/// value.
pub const MAX_FUNDING: i128 = 85_070_591_730_234_615_865_843_651_857_942_052_863;

/// Whether `outcome` selects YES or NO.
pub open spec fn is_outcome(outcome: u32) -> bool {
    outcome == OUTCOME_YES || outcome == OUTCOME_NO
}

/// The fee kept from a claimed balance: the balance times the fee rate,
/// rounded down.
pub open spec fn claim_fee(balance: int) -> int {
    balance * CLAIM_FEE_BPS / (BPS_DENOMINATOR as int)
}

/// The abstract state of a market.
#[verifier::ext_equal]
pub struct MarketState {
    /// Whether the market has been initialized.
    pub initialized: bool,
    /// The principal that may resolve the market.
    pub oracle: Seq<char>,
    /// The asset that the market settles in.
    pub collateral_token: Seq<char>,
    /// The liquidity parameter `b`.
    pub liquidity_param: int,
    /// The reference to the market's description.
    pub metadata_hash: Seq<char>,
    /// The YES tokens issued and not sold back.
    pub yes_sold: int,
    /// The NO tokens issued and not sold back.
    pub no_sold: int,
    /// The collateral that the market holds.
    pub collateral_pool: int,
    /// Whether the market has been resolved.
    pub resolved: bool,
    /// The outcome that won; it has a meaning only once resolved.
    pub winning_outcome: u32,
    /// The balance of each user for each outcome; none recorded is zero.
    pub balances: Map<PositionKey, int>,
}

impl MarketState {
    /// The tokens of `outcome` issued and not sold back.
    pub open spec fn sold(self, outcome: u32) -> int {
        if outcome == OUTCOME_YES {
            self.yes_sold
        } else {
            self.no_sold
        }
    }

    /// The balance of `user` for `outcome`.
    pub open spec fn balance(self, user: Seq<char>, outcome: u32) -> int {
        balance_of(self.balances, user, outcome)
    }

    /// The sum of all users' balances for `outcome`.
    pub open spec fn held(self, outcome: u32) -> int {
        held_in(self.balances, outcome)
    }

    /// The invariant of every market: quantities, pool and balances are
    /// nonnegative 128-bit values, the liquidity parameter of an
    /// initialized market is positive, users hold no more of an outcome
    /// than was issued, and a resolved market was initialized and has a
    /// winner.
    pub open spec fn valid(self) -> bool {
        &&& balances_valid(self.balances)
        &&& fits_i128(self.liquidity_param)
        &&& 0 <= self.yes_sold <= i128::MAX
        &&& 0 <= self.no_sold <= i128::MAX
        &&& 0 <= self.collateral_pool <= i128::MAX
        &&& self.held(OUTCOME_YES) <= self.yes_sold
        &&& self.held(OUTCOME_NO) <= self.no_sold
        &&& self.initialized ==> self.liquidity_param > 0
        &&& self.resolved ==> self.initialized && is_outcome(self.winning_outcome)
        &&& !self.initialized ==> self.yes_sold == 0 && self.no_sold == 0 && self.collateral_pool
            == 0
    }

    /// Whether every token issued is held by a user.
    pub open spec fn backed(self) -> bool {
        &&& self.held(OUTCOME_YES) == self.yes_sold
        &&& self.held(OUTCOME_NO) == self.no_sold
    }

    /// This state with `balance` recorded for `user` and `outcome`.
    pub open spec fn with_balance(self, user: Seq<char>, outcome: u32, balance: int) -> MarketState {
        MarketState { balances: self.balances.insert((user, outcome), balance), ..self }
    }

    /// This state with `amount` more tokens of `outcome` issued.
    pub open spec fn with_issued(self, outcome: u32, amount: int) -> MarketState {
        MarketState {
            yes_sold: quantities_after(self.yes_sold, self.no_sold, amount, outcome).0,
            no_sold: quantities_after(self.yes_sold, self.no_sold, amount, outcome).1,
            ..self
        }
    }

    /// What `initialize` returns: it fails on a market that is initialized,
    /// for a liquidity parameter that is not positive, where the required
    /// liquidity cannot be computed, for funding below the required
    /// liquidity, and for funding above [`MAX_FUNDING`].
    pub open spec fn initialize_result(self, liquidity_param: int, initial_funding: int) -> Result<
        (),
        MarketError,
    > {
        if self.initialized {
            Err(MarketError::AlreadyInitialized)
        } else if liquidity_param <= 0 {
            Err(MarketError::InvalidLiquidity)
        } else if initial_liquidity_fixed(liquidity_param) is Err {
            Err(initial_liquidity_fixed(liquidity_param)->Err_0)
        } else if initial_funding < initial_liquidity_fixed(liquidity_param)->Ok_0 {
            Err(MarketError::InvalidAmount)
        } else if initial_funding > MAX_FUNDING {
            Err(MarketError::Overflow)
        } else {
            Ok(())
        }
    }

    /// The state that a successful `initialize` leaves: an open market with
    /// nothing issued, holding the funding.
    pub open spec fn after_initialize(
        self,
        oracle: Seq<char>,
        collateral_token: Seq<char>,
        liquidity_param: int,
        metadata_hash: Seq<char>,
        initial_funding: int,
    ) -> MarketState {
        MarketState {
            initialized: true,
            oracle,
            collateral_token,
            liquidity_param,
            metadata_hash,
            yes_sold: 0,
            no_sold: 0,
            collateral_pool: initial_funding,
            resolved: false,
            ..self
        }
    }

    /// What the checks shared by trades and quotes return: the market must
    /// be initialized and not resolved, the outcome YES or NO, and the
    /// amount positive.
    pub open spec fn trade_check(self, outcome: u32, amount: int) -> Result<(), MarketError> {
        if !self.initialized {
            Err(MarketError::NotInitialized)
        } else if self.resolved {
            Err(MarketError::AlreadyResolved)
        } else if !is_outcome(outcome) {
            Err(MarketError::InvalidOutcome)
        } else if amount <= 0 {
            Err(MarketError::InvalidAmount)
        } else {
            Ok(())
        }
    }

    /// The LMSR cost of buying `amount` of `outcome` in this state.
    pub open spec fn buy_cost(self, outcome: u32, amount: int) -> Result<int, MarketError> {
        buy_cost_fixed(self.yes_sold, self.no_sold, amount, outcome, self.liquidity_param)
    }

    /// The LMSR return from selling `amount` of `outcome` in this state.
    pub open spec fn sell_return(self, outcome: u32, amount: int) -> Result<int, MarketError> {
        sell_return_fixed(self.yes_sold, self.no_sold, amount, outcome, self.liquidity_param)
    }

    /// What `buy` returns: the cost paid, or the failure of the first check
    /// that does not pass.
    pub open spec fn buy_result(self, outcome: u32, amount: int, max_cost: int) -> Result<
        int,
        MarketError,
    > {
        if self.trade_check(outcome, amount) is Err {
            Err(self.trade_check(outcome, amount)->Err_0)
        } else if self.buy_cost(outcome, amount) is Err {
            self.buy_cost(outcome, amount)
        } else {
            let cost = self.buy_cost(outcome, amount)->Ok_0;
            if cost > max_cost {
                Err(MarketError::SlippageExceeded)
            } else if !fits_i128(self.collateral_pool + cost) {
                Err(MarketError::Overflow)
            } else if self.collateral_pool + cost < 0 {
                Err(MarketError::InsufficientPool)
            } else {
                Ok(cost)
            }
        }
    }

    /// The state that a successful `buy` at `cost` leaves.
    pub open spec fn after_buy(self, user: Seq<char>, outcome: u32, amount: int, cost: int) -> MarketState {
        MarketState {
            collateral_pool: self.collateral_pool + cost,
            ..self.with_issued(outcome, amount).with_balance(
                user,
                outcome,
                self.balance(user, outcome) + amount,
            )
        }
    }

    /// What `sell` returns: the collateral returned, or the failure of the
    /// first check that does not pass.
    pub open spec fn sell_result(
        self,
        user: Seq<char>,
        outcome: u32,
        amount: int,
        min_return: int,
    ) -> Result<int, MarketError> {
        if self.trade_check(outcome, amount) is Err {
            Err(self.trade_check(outcome, amount)->Err_0)
        } else if self.balance(user, outcome) < amount {
            Err(MarketError::InsufficientBalance)
        } else if self.sell_return(outcome, amount) is Err {
            self.sell_return(outcome, amount)
        } else {
            let returned = self.sell_return(outcome, amount)->Ok_0;
            if returned < min_return {
                Err(MarketError::ReturnTooLow)
            } else if self.collateral_pool < returned {
                Err(MarketError::InsufficientPool)
            } else if !fits_i128(self.collateral_pool - returned) {
                Err(MarketError::Overflow)
            } else {
                Ok(returned)
            }
        }
    }

    /// The state that a successful `sell` for `returned` leaves.
    pub open spec fn after_sell(self, user: Seq<char>, outcome: u32, amount: int, returned: int) -> MarketState {
        MarketState {
            collateral_pool: self.collateral_pool - returned,
            ..self.with_issued(outcome, -amount).with_balance(
                user,
                outcome,
                self.balance(user, outcome) - amount,
            )
        }
    }

    /// What `resolve` returns: only the oracle may resolve an open market,
    /// and only to YES or NO.
    pub open spec fn resolve_result(self, caller: Seq<char>, winning_outcome: u32) -> Result<
        (),
        MarketError,
    > {
        if !self.initialized {
            Err(MarketError::NotInitialized)
        } else if self.resolved {
            Err(MarketError::AlreadyResolved)
        } else if !is_outcome(winning_outcome) {
            Err(MarketError::InvalidOutcome)
        } else if caller != self.oracle {
            Err(MarketError::Unauthorized)
        } else {
            Ok(())
        }
    }

    /// The state that a successful `resolve` leaves.
    pub open spec fn after_resolve(self, winning_outcome: u32) -> MarketState {
        MarketState { resolved: true, winning_outcome, ..self }
    }

    /// What the checks of a resolved market return.
    pub open spec fn settled_check(self) -> Result<(), MarketError> {
        if !self.initialized {
            Err(MarketError::NotInitialized)
        } else if !self.resolved {
            Err(MarketError::NotResolved)
        } else {
            Ok(())
        }
    }

    /// What `claim` returns: the winning balance less the fee, or the
    /// failure of the first check that does not pass.
    pub open spec fn claim_result(self, user: Seq<char>) -> Result<int, MarketError> {
        let balance = self.balance(user, self.winning_outcome);
        if self.settled_check() is Err {
            Err(self.settled_check()->Err_0)
        } else if balance <= 0 {
            Err(MarketError::NothingToClaim)
        } else if !fits_i128(balance * CLAIM_FEE_BPS) {
            Err(MarketError::Overflow)
        } else if self.collateral_pool < balance - claim_fee(balance) {
            Err(MarketError::InsufficientPool)
        } else {
            Ok(balance - claim_fee(balance))
        }
    }

    /// The state that a successful `claim` paying `payout` leaves: the
    /// winning balance of the user is zero, and the fee stays in the pool.
    pub open spec fn after_claim(self, user: Seq<char>, payout: int) -> MarketState {
        MarketState {
            collateral_pool: self.collateral_pool - payout,
            ..self.with_balance(user, self.winning_outcome, 0)
        }
    }

    /// What `withdraw_remaining` returns: the whole pool, for the oracle of
    /// a resolved market whose pool is not empty.
    pub open spec fn withdraw_result(self, caller: Seq<char>) -> Result<int, MarketError> {
        if self.settled_check() is Err {
            Err(self.settled_check()->Err_0)
        } else if caller != self.oracle {
            Err(MarketError::Unauthorized)
        } else if self.collateral_pool <= 0 {
            Err(MarketError::NothingToClaim)
        } else {
            Ok(self.collateral_pool)
        }
    }

    /// The state that a successful `withdraw_remaining` leaves.
    pub open spec fn after_withdraw(self) -> MarketState {
        MarketState { collateral_pool: 0, ..self }
    }

    /// What `get_price` returns.
    pub open spec fn price_result(self, outcome: u32) -> Result<int, MarketError> {
        if !self.initialized {
            Err(MarketError::NotInitialized)
        } else {
            price_fixed(self.yes_sold, self.no_sold, outcome, self.liquidity_param)
        }
    }

    /// What `get_quote` returns: the cost of buying `amount` of `outcome`
    /// and the price of the outcome at the quantities after the purchase.
    pub open spec fn quote_result(self, outcome: u32, amount: int) -> Result<(int, int), MarketError> {
        let price = self.with_issued(outcome, amount).price_result(outcome);
        if self.trade_check(outcome, amount) is Err {
            Err(self.trade_check(outcome, amount)->Err_0)
        } else if self.buy_cost(outcome, amount) is Err {
            Err(self.buy_cost(outcome, amount)->Err_0)
        } else if price is Err {
            Err(price->Err_0)
        } else {
            Ok((self.buy_cost(outcome, amount)->Ok_0, price->Ok_0))
        }
    }

    /// What `get_sell_quote` returns: the return from selling `amount` of
    /// `outcome` and the price of the outcome at the quantities after the
    /// sale.
    pub open spec fn sell_quote_result(self, outcome: u32, amount: int) -> Result<
        (int, int),
        MarketError,
    > {
        let price = self.with_issued(outcome, -amount).price_result(outcome);
        if self.trade_check(outcome, amount) is Err {
            Err(self.trade_check(outcome, amount)->Err_0)
        } else if self.sell_return(outcome, amount) is Err {
            Err(self.sell_return(outcome, amount)->Err_0)
        } else if price is Err {
            Err(price->Err_0)
        } else {
            Ok((self.sell_return(outcome, amount)->Ok_0, price->Ok_0))
        }
    }
}

/// The fee never exceeds the balance it is taken from, and is never
/// negative.
pub proof fn lemma_claim_fee_range(balance: int)
    requires
        balance >= 0,
    ensures
        0 <= claim_fee(balance) <= balance,
{
    assert(balance * CLAIM_FEE_BPS == balance * 200);
}

/// The liquidity required of a positive parameter is not negative.
pub proof fn lemma_initial_liquidity_nonnegative(liquidity_param: int)
    requires
        liquidity_param > 0,
    ensures
        initial_liquidity_fixed(liquidity_param) matches Ok(required) ==> required >= 0,
{
    assert(liquidity_param * LN2_SCALED == liquidity_param * 6_931_472);
}

/// In a valid state every balance lies between zero and the sum held of its
/// outcome, which in turn is at most what was issued.
pub proof fn lemma_balance_range(s: MarketState, user: Seq<char>, outcome: u32)
    requires
        s.valid(),
    ensures
        0 <= s.balance(user, outcome) <= s.held(outcome),
        is_outcome(outcome) ==> s.held(outcome) <= s.sold(outcome),
        !is_outcome(outcome) ==> s.balance(user, outcome) == 0,
{
    lemma_held_bounds(s.balances, user, outcome);
}

/// A successful `initialize` leaves a valid state, in which every token
/// issued is held: none is issued, and none is held.
pub proof fn lemma_initialize_valid(
    s: MarketState,
    oracle: Seq<char>,
    collateral_token: Seq<char>,
    liquidity_param: int,
    metadata_hash: Seq<char>,
    initial_funding: int,
)
    requires
        s.valid(),
        s.initialize_result(liquidity_param, initial_funding) is Ok,
    ensures
        s.after_initialize(
            oracle,
            collateral_token,
            liquidity_param,
            metadata_hash,
            initial_funding,
        ).valid(),
        s.after_initialize(
            oracle,
            collateral_token,
            liquidity_param,
            metadata_hash,
            initial_funding,
        ).backed(),
{
    lemma_initial_liquidity_nonnegative(liquidity_param);
    lemma_held_bounds(s.balances, Seq::empty(), OUTCOME_YES);
    lemma_held_bounds(s.balances, Seq::empty(), OUTCOME_NO);
}

/// A successful `buy` leaves a valid state, and one in which every token
/// issued is held if that was so before.
pub proof fn lemma_buy_valid(
    s: MarketState,
    user: Seq<char>,
    outcome: u32,
    amount: int,
    max_cost: int,
)
    requires
        s.valid(),
        s.buy_result(outcome, amount, max_cost) is Ok,
    ensures
        s.after_buy(user, outcome, amount, s.buy_result(outcome, amount, max_cost)->Ok_0).valid(),
        s.backed() ==> s.after_buy(
            user,
            outcome,
            amount,
            s.buy_result(outcome, amount, max_cost)->Ok_0,
        ).backed(),
{
    lemma_balance_range(s, user, outcome);
    lemma_held_insert(s.balances, user, outcome, s.balance(user, outcome) + amount, OUTCOME_YES);
    lemma_held_insert(s.balances, user, outcome, s.balance(user, outcome) + amount, OUTCOME_NO);
}

/// A successful `sell` leaves a valid state, and one in which every token
/// issued is held if that was so before.
pub proof fn lemma_sell_valid(
    s: MarketState,
    user: Seq<char>,
    outcome: u32,
    amount: int,
    min_return: int,
)
    requires
        s.valid(),
        s.sell_result(user, outcome, amount, min_return) is Ok,
    ensures
        s.after_sell(
            user,
            outcome,
            amount,
            s.sell_result(user, outcome, amount, min_return)->Ok_0,
        ).valid(),
        s.backed() ==> s.after_sell(
            user,
            outcome,
            amount,
            s.sell_result(user, outcome, amount, min_return)->Ok_0,
        ).backed(),
{
    lemma_balance_range(s, user, outcome);
    lemma_held_insert(s.balances, user, outcome, s.balance(user, outcome) - amount, OUTCOME_YES);
    lemma_held_insert(s.balances, user, outcome, s.balance(user, outcome) - amount, OUTCOME_NO);
}

/// A successful `resolve` leaves a valid state and moves no token.
pub proof fn lemma_resolve_valid(s: MarketState, caller: Seq<char>, winning_outcome: u32)
    requires
        s.valid(),
        s.resolve_result(caller, winning_outcome) is Ok,
    ensures
        s.after_resolve(winning_outcome).valid(),
        s.backed() ==> s.after_resolve(winning_outcome).backed(),
{
}

/// A successful `claim` leaves a valid state.
pub proof fn lemma_claim_valid(s: MarketState, user: Seq<char>)
    requires
        s.valid(),
        s.claim_result(user) is Ok,
    ensures
        s.after_claim(user, s.claim_result(user)->Ok_0).valid(),
{
    lemma_balance_range(s, user, s.winning_outcome);
    lemma_claim_fee_range(s.balance(user, s.winning_outcome));
    lemma_held_insert(s.balances, user, s.winning_outcome, 0, OUTCOME_YES);
    lemma_held_insert(s.balances, user, s.winning_outcome, 0, OUTCOME_NO);
}

/// A successful `withdraw_remaining` leaves a valid state.
pub proof fn lemma_withdraw_valid(s: MarketState, caller: Seq<char>)
    requires
        s.valid(),
        s.withdraw_result(caller) is Ok,
    ensures
        s.after_withdraw().valid(),
{
}

/// Buying and at once selling the same amount of the same outcome returns
/// exactly what was paid, and leaves the quantities issued, the pool and
/// the user's balance as they were before the purchase.
pub proof fn lemma_buy_then_sell(
    s: MarketState,
    user: Seq<char>,
    outcome: u32,
    amount: int,
    max_cost: int,
    min_return: int,
)
    requires
        s.valid(),
        s.buy_result(outcome, amount, max_cost) is Ok,
        min_return <= s.buy_result(outcome, amount, max_cost)->Ok_0,
    ensures
        ({
            let cost = s.buy_result(outcome, amount, max_cost)->Ok_0;
            let bought = s.after_buy(user, outcome, amount, cost);
            let sold = bought.after_sell(user, outcome, amount, cost);
            &&& bought.sell_result(user, outcome, amount, min_return) == Ok::<int, MarketError>(cost)
            &&& sold.yes_sold == s.yes_sold
            &&& sold.no_sold == s.no_sold
            &&& sold.collateral_pool == s.collateral_pool
            &&& sold.balance(user, outcome) == s.balance(user, outcome)
        }),
{
    lemma_balance_range(s, user, outcome);
    lemma_round_trip(s.yes_sold, s.no_sold, amount, outcome, s.liquidity_param);
}

/// A user cannot sell more than the balance recorded for that user.
pub proof fn lemma_sell_more_than_held(
    s: MarketState,
    user: Seq<char>,
    outcome: u32,
    amount: int,
    min_return: int,
)
    requires
        s.trade_check(outcome, amount) is Ok,
        s.balance(user, outcome) < amount,
    ensures
        s.sell_result(user, outcome, amount, min_return) == Err::<int, MarketError>(
            MarketError::InsufficientBalance,
        ),
{
}

/// A claim pays once: after a successful claim, a second claim by the same
/// user fails with `NothingToClaim`.
pub proof fn lemma_claim_only_once(s: MarketState, user: Seq<char>)
    requires
        s.valid(),
        s.claim_result(user) is Ok,
    ensures
        s.after_claim(user, s.claim_result(user)->Ok_0).claim_result(user) == Err::<
            int,
            MarketError,
        >(MarketError::NothingToClaim),
{
}

/// In a resolved market a user without a winning balance has nothing to
/// claim.
pub proof fn lemma_claim_without_winnings(s: MarketState, user: Seq<char>)
    requires
        s.initialized,
        s.resolved,
        s.balance(user, s.winning_outcome) == 0,
    ensures
        s.claim_result(user) == Err::<int, MarketError>(MarketError::NothingToClaim),
{
}

/// A resolved market is closed: every purchase, sale, quote and further
/// resolution fails with `AlreadyResolved`.
pub proof fn lemma_resolved_market_is_closed(
    s: MarketState,
    user: Seq<char>,
    outcome: u32,
    amount: int,
    limit: int,
)
    requires
        s.initialized,
        s.resolved,
    ensures
        s.buy_result(outcome, amount, limit) == Err::<int, MarketError>(MarketError::AlreadyResolved),
        s.sell_result(user, outcome, amount, limit) == Err::<int, MarketError>(
            MarketError::AlreadyResolved,
        ),
        s.quote_result(outcome, amount) == Err::<(int, int), MarketError>(
            MarketError::AlreadyResolved,
        ),
        s.sell_quote_result(outcome, amount) == Err::<(int, int), MarketError>(
            MarketError::AlreadyResolved,
        ),
        s.resolve_result(user, outcome) == Err::<(), MarketError>(MarketError::AlreadyResolved),
{
}

/// An open market pays nothing out: every claim and every withdrawal fails
/// with `NotResolved`.
pub proof fn lemma_open_market_pays_nothing(s: MarketState, caller: Seq<char>)
    requires
        s.initialized,
        !s.resolved,
    ensures
        s.claim_result(caller) == Err::<int, MarketError>(MarketError::NotResolved),
        s.withdraw_result(caller) == Err::<int, MarketError>(MarketError::NotResolved),
{
}

/// A request to the market.
pub enum Operation {
    /// Open the market.
    Initialize {
        oracle: Seq<char>,
        collateral_token: Seq<char>,
        liquidity_param: int,
        metadata_hash: Seq<char>,
        initial_funding: int,
    },
    /// Buy tokens.
    Buy { user: Seq<char>, outcome: u32, amount: int, max_cost: int },
    /// Sell tokens.
    Sell { user: Seq<char>, outcome: u32, amount: int, min_return: int },
    /// Resolve the market.
    Resolve { caller: Seq<char>, winning_outcome: u32 },
    /// Claim winnings.
    Claim { user: Seq<char> },
    /// Withdraw the rest of the pool.
    Withdraw { caller: Seq<char> },
}

impl MarketState {
    /// The collateral that `op` moves into the pool from this state: the
    /// funding of a successful initialization and the cost of a successful
    /// purchase count positive, what a successful sale, claim or withdrawal
    /// pays out counts negative, and a failed or other operation moves
    /// nothing.
    pub open spec fn flow(self, op: Operation) -> int {
        match op {
            Operation::Initialize { liquidity_param, initial_funding, .. } => {
                if self.initialize_result(liquidity_param, initial_funding) is Ok {
                    initial_funding
                } else {
                    0
                }
            },
            Operation::Buy { outcome, amount, max_cost, .. } => {
                match self.buy_result(outcome, amount, max_cost) {
                    Ok(cost) => cost,
                    Err(_) => 0,
                }
            },
            Operation::Sell { user, outcome, amount, min_return } => {
                match self.sell_result(user, outcome, amount, min_return) {
                    Ok(returned) => -returned,
                    Err(_) => 0,
                }
            },
            Operation::Resolve { .. } => 0,
            Operation::Claim { user } => {
                match self.claim_result(user) {
                    Ok(payout) => -payout,
                    Err(_) => 0,
                }
            },
            Operation::Withdraw { caller } => {
                match self.withdraw_result(caller) {
                    Ok(withdrawn) => -withdrawn,
                    Err(_) => 0,
                }
            },
        }
    }

    /// The state after `op`: the state that the operation leaves where it
    /// succeeds, and this state where it fails.
    pub open spec fn step(self, op: Operation) -> MarketState {
        match op {
            Operation::Initialize {
                oracle,
                collateral_token,
                liquidity_param,
                metadata_hash,
                initial_funding,
            } => {
                if self.initialize_result(liquidity_param, initial_funding) is Ok {
                    self.after_initialize(
                        oracle,
                        collateral_token,
                        liquidity_param,
                        metadata_hash,
                        initial_funding,
                    )
                } else {
                    self
                }
            },
            Operation::Buy { user, outcome, amount, max_cost } => {
                match self.buy_result(outcome, amount, max_cost) {
                    Ok(cost) => self.after_buy(user, outcome, amount, cost),
                    Err(_) => self,
                }
            },
            Operation::Sell { user, outcome, amount, min_return } => {
                match self.sell_result(user, outcome, amount, min_return) {
                    Ok(returned) => self.after_sell(user, outcome, amount, returned),
                    Err(_) => self,
                }
            },
            Operation::Resolve { caller, winning_outcome } => {
                if self.resolve_result(caller, winning_outcome) is Ok {
                    self.after_resolve(winning_outcome)
                } else {
                    self
                }
            },
            Operation::Claim { user } => {
                match self.claim_result(user) {
                    Ok(payout) => self.after_claim(user, payout),
                    Err(_) => self,
                }
            },
            Operation::Withdraw { caller } => {
                if self.withdraw_result(caller) is Ok {
                    self.after_withdraw()
                } else {
                    self
                }
            },
        }
    }

    /// The state after the operations `ops`, in order.
    pub open spec fn run(self, ops: Seq<Operation>) -> MarketState
        decreases ops.len(),
    {
        if ops.len() == 0 {
            self
        } else {
            self.run(ops.drop_last()).step(ops.last())
        }
    }

    /// The collateral that the operations `ops` move into the pool, all
    /// together.
    pub open spec fn total_flow(self, ops: Seq<Operation>) -> int
        decreases ops.len(),
    {
        if ops.len() == 0 {
            0
        } else {
            self.total_flow(ops.drop_last()) + self.run(ops.drop_last()).flow(ops.last())
        }
    }
}

/// Every operation leaves a valid state valid. While the market is not
/// resolved, every token issued stays held by a user if that was so before.
/// Once the market is resolved it stays resolved, with the same winner.
pub proof fn lemma_step_valid(s: MarketState, op: Operation)
    requires
        s.valid(),
    ensures
        s.step(op).valid(),
        s.backed() && !s.step(op).resolved ==> s.step(op).backed(),
        s.initialized ==> s.step(op).initialized && s.step(op).liquidity_param
            == s.liquidity_param && s.step(op).oracle == s.oracle,
        s.resolved ==> s.step(op).resolved && s.step(op).winning_outcome == s.winning_outcome,
{
    match op {
        Operation::Initialize {
            oracle,
            collateral_token,
            liquidity_param,
            metadata_hash,
            initial_funding,
        } => {
            if s.initialize_result(liquidity_param, initial_funding) is Ok {
                lemma_initialize_valid(
                    s,
                    oracle,
                    collateral_token,
                    liquidity_param,
                    metadata_hash,
                    initial_funding,
                );
            }
        },
        Operation::Buy { user, outcome, amount, max_cost } => {
            if s.buy_result(outcome, amount, max_cost) is Ok {
                lemma_buy_valid(s, user, outcome, amount, max_cost);
            }
        },
        Operation::Sell { user, outcome, amount, min_return } => {
            if s.sell_result(user, outcome, amount, min_return) is Ok {
                lemma_sell_valid(s, user, outcome, amount, min_return);
            }
        },
        Operation::Resolve { caller, winning_outcome } => {
            if s.resolve_result(caller, winning_outcome) is Ok {
                lemma_resolve_valid(s, caller, winning_outcome);
            }
        },
        Operation::Claim { user } => {
            if s.claim_result(user) is Ok {
                lemma_claim_valid(s, user);
            }
        },
        Operation::Withdraw { caller } => {
            if s.withdraw_result(caller) is Ok {
                lemma_withdraw_valid(s, caller);
            }
        },
    }
}

/// Every state that operations reach from a valid state is valid, and the
/// pool never goes negative. While the market is not resolved, every token
/// issued is held by a user if that was so at the start.
pub proof fn lemma_run_valid(s: MarketState, ops: Seq<Operation>)
    requires
        s.valid(),
    ensures
        s.run(ops).valid(),
        s.run(ops).collateral_pool >= 0,
        s.backed() && !s.run(ops).resolved ==> s.run(ops).backed(),
        s.resolved ==> s.run(ops).resolved && s.run(ops).winning_outcome == s.winning_outcome,
    decreases ops.len(),
{
    if ops.len() > 0 {
        lemma_run_valid(s, ops.drop_last());
        lemma_step_valid(s.run(ops.drop_last()), ops.last());
    }
}

/// Conservation of collateral: after any operations the pool holds what it
/// held at the start plus everything that the operations moved in, less
/// everything that they paid out. From a market that is not initialized,
/// that is the initial funding plus the costs of all purchases, less the
/// returns of all sales, the payouts of all claims and all withdrawals.
pub proof fn lemma_conservation(s: MarketState, ops: Seq<Operation>)
    requires
        s.valid(),
    ensures
        s.run(ops).collateral_pool == s.collateral_pool + s.total_flow(ops),
        !s.initialized ==> s.run(ops).collateral_pool == s.total_flow(ops),
    decreases ops.len(),
{
    if ops.len() > 0 {
        lemma_conservation(s, ops.drop_last());
        lemma_run_valid(s, ops.drop_last());
    }
}

} // verus!
