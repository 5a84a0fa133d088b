//! The executable market.
//!
//! [`LmsrMarket`] holds the state of one market and the holdings of its
//! users. Each operation either succeeds and changes the state as the
//! corresponding function of [`MarketState`] says, or fails with the error
//! that function gives and changes nothing.
//!
//! The market moves no collateral itself and does not authenticate anyone.
//! The caller establishes that the acting principal consented, and settles
//! what an operation returns: the cost of a purchase is owed by the buyer to
//! the market, and the proceeds of a sale, a claim or a withdrawal are owed
//! by the market to the seller, the claimant or the oracle.

use vstd::prelude::*;
use crate::address::Address;
use crate::error::MarketError;
use crate::lmsr::{
    agrees, calculate_buy_cost, calculate_price, calculate_sell_return, initial_liquidity,
    OUTCOME_NO, OUTCOME_YES,
};
use crate::model::{
    is_outcome, lemma_balance_range, lemma_buy_valid, lemma_claim_fee_range, lemma_claim_valid,
    lemma_initialize_valid, lemma_resolve_valid, lemma_sell_valid, lemma_withdraw_valid,
    MarketState, BPS_DENOMINATOR, CLAIM_FEE_BPS, MAX_FUNDING,
};
use crate::positions::{held_in, lemma_held_empty, lemma_held_insert, Positions};
use crate::storage::{
    holdings_map, lemma_holdings_domain, lemma_holdings_prefix, Holding, StoredMarket,
};

verus! {

/// A binary prediction market with an LMSR market maker.
#[derive(Debug)]
pub struct LmsrMarket {
    initialized: bool,
    oracle: Address,
    collateral_token: Address,
    liquidity_param: i128,
    metadata_hash: String,
    yes_sold: i128,
    no_sold: i128,
    collateral_pool: i128,
    resolved: bool,
    winning_outcome: u32,
    positions: Positions,
}

impl View for LmsrMarket {
    type V = MarketState;

    closed spec fn view(&self) -> MarketState {
        MarketState {
            initialized: self.initialized,
            oracle: self.oracle@,
            collateral_token: self.collateral_token@,
            liquidity_param: self.liquidity_param as int,
            metadata_hash: self.metadata_hash@,
            yes_sold: self.yes_sold as int,
            no_sold: self.no_sold as int,
            collateral_pool: self.collateral_pool as int,
            resolved: self.resolved,
            winning_outcome: self.winning_outcome,
            balances: self.positions@,
        }
    }
}

impl LmsrMarket {
    /// The invariant of the market: its table of holdings is well formed
    /// and its state is valid.
    pub closed spec fn wf(&self) -> bool {
        &&& self.positions.wf()
        &&& self@.valid()
    }

    /// The state of a well-formed market is valid.
    pub proof fn lemma_wf(&self)
        requires
            self.wf(),
        ensures
            self@.valid(),
    {
    }

    /// A market that has not been initialized: it holds nothing, and no
    /// balance is recorded.
    pub fn new() -> (m: LmsrMarket)
        ensures
            m.wf(),
            !m@.initialized,
            !m@.resolved,
            m@.balances == Map::<(Seq<char>, u32), int>::empty(),
    {
        let m = LmsrMarket {
            initialized: false,
            oracle: Address::new(String::new()),
            collateral_token: Address::new(String::new()),
            liquidity_param: 0,
            metadata_hash: String::new(),
            yes_sold: 0,
            no_sold: 0,
            collateral_pool: 0,
            resolved: false,
            winning_outcome: OUTCOME_YES,
            positions: Positions::new(),
        };
        proof {
            m.positions.lemma_wf();
            lemma_held_empty(OUTCOME_YES);
            lemma_held_empty(OUTCOME_NO);
        }
        m
    }

    /// Rebuilds a market from its persisted form.
    ///
    /// Storage without an oracle holds no market, and gives a market that
    /// is not initialized. Otherwise the fields must be complete and, with
    /// the holdings, describe a valid market; if they do not, the storage is
    /// corrupted. The holdings may be a part of those stored: a market
    /// restored from some users' holdings serves those users.
    pub fn restore(stored: StoredMarket, holdings: Vec<Holding>) -> (r: Result<LmsrMarket, MarketError>)
        ensures
            match r {
                Ok(m) => {
                    &&& m.wf()
                    &&& if stored.oracle is None {
                        !m@.initialized && m@.balances == Map::<(Seq<char>, u32), int>::empty()
                    } else {
                        stored.consistent(holdings@) && m@ == stored.state(holdings@)
                    }
                },
                Err(e) => {
                    &&& e == MarketError::StorageCorrupted
                    &&& stored.oracle is Some
                    &&& !stored.consistent(holdings@)
                },
            },
    {
        let StoredMarket {
            oracle,
            collateral_token,
            liquidity_param,
            metadata_hash,
            yes_sold,
            no_sold,
            collateral_pool,
            resolved,
            winning_outcome,
        } = stored;
        let oracle = match oracle {
            Some(oracle) => oracle,
            None => { return Ok(LmsrMarket::new()); },
        };
        let collateral_token = match collateral_token {
            Some(token) => token,
            None => { return Err(MarketError::StorageCorrupted); },
        };
        let liquidity_param = match liquidity_param {
            Some(b) => b,
            None => { return Err(MarketError::StorageCorrupted); },
        };
        let metadata_hash = match metadata_hash {
            Some(hash) => hash,
            None => { return Err(MarketError::StorageCorrupted); },
        };
        let yes_sold = match yes_sold {
            Some(q) => q,
            None => { return Err(MarketError::StorageCorrupted); },
        };
        let no_sold = match no_sold {
            Some(q) => q,
            None => { return Err(MarketError::StorageCorrupted); },
        };
        let collateral_pool = match collateral_pool {
            Some(pool) => pool,
            None => { return Err(MarketError::StorageCorrupted); },
        };
        let resolved = match resolved {
            Some(resolved) => resolved,
            None => { return Err(MarketError::StorageCorrupted); },
        };
        let winning_outcome = match winning_outcome {
            Some(outcome) => outcome,
            None => {
                if resolved {
                    return Err(MarketError::StorageCorrupted);
                }
                OUTCOME_YES
            },
        };
        if liquidity_param <= 0 || yes_sold < 0 || no_sold < 0 || collateral_pool < 0 {
            return Err(MarketError::StorageCorrupted);
        }
        if resolved && winning_outcome != OUTCOME_YES && winning_outcome != OUTCOME_NO {
            return Err(MarketError::StorageCorrupted);
        }
        let mut positions = Positions::new();
        let mut held_yes: i128 = 0;
        let mut held_no: i128 = 0;
        let mut i: usize = 0;
        proof {
            lemma_held_empty(OUTCOME_YES);
            lemma_held_empty(OUTCOME_NO);
            assert(holdings@.take(0) =~= Seq::<Holding>::empty());
        }
        while i < holdings.len()
            invariant
                i <= holdings@.len(),
                positions.wf(),
                positions@ == holdings_map(holdings@.take(i as int)),
                forall|j: int|
                    #![trigger holdings@[j]]
                    0 <= j < i ==> is_outcome(holdings@[j].outcome) && holdings@[j].balance >= 0,
                forall|j: int, k: int|
                    0 <= j < k < i ==> #[trigger] holdings@[j].key() != #[trigger] holdings@[k].key(),
                held_yes == held_in(positions@, OUTCOME_YES),
                held_no == held_in(positions@, OUTCOME_NO),
                0 <= held_yes <= yes_sold,
                0 <= held_no <= no_sold,
                stored.complete(),
                stored.state(holdings@).yes_sold == yes_sold,
                stored.state(holdings@).no_sold == no_sold,
            decreases holdings@.len() - i,
        {
            let holding = &holdings[i];
            let ghost prefix = holdings@.take(i as int);
            let ghost next = holdings@.take(i + 1);
            proof {
                assert(next.drop_last() =~= prefix);
                assert(next.last() == holdings@[i as int]);
                lemma_holdings_domain(prefix, holding.key());
                positions.lemma_wf();
            }
            if (holding.outcome != OUTCOME_YES && holding.outcome != OUTCOME_NO) || holding.balance < 0 {
                return Err(MarketError::StorageCorrupted);
            }
            if positions.contains(&holding.user, holding.outcome) {
                proof {
                    let j = choose|j: int| 0 <= j < prefix.len() && #[trigger] prefix[j].key() == holding.key();
                    assert(holdings@[j].key() == holdings@[i as int].key());
                }
                return Err(MarketError::StorageCorrupted);
            }
            proof {
                assert forall|j: int| 0 <= j < i implies #[trigger] holdings@[j].key()
                    != holdings@[i as int].key() by {
                    assert(prefix[j].key() == holdings@[j].key());
                }
                lemma_held_insert(
                    positions@,
                    holding.user@,
                    holding.outcome,
                    holding.balance as int,
                    OUTCOME_YES,
                );
                lemma_held_insert(
                    positions@,
                    holding.user@,
                    holding.outcome,
                    holding.balance as int,
                    OUTCOME_NO,
                );
                if stored.consistent(holdings@) {
                    lemma_holdings_prefix(holdings@, i + 1, OUTCOME_YES);
                    lemma_holdings_prefix(holdings@, i + 1, OUTCOME_NO);
                }
            }
            if holding.outcome == OUTCOME_YES {
                if holding.balance > yes_sold - held_yes {
                    return Err(MarketError::StorageCorrupted);
                }
                held_yes = held_yes + holding.balance;
            } else {
                if holding.balance > no_sold - held_no {
                    return Err(MarketError::StorageCorrupted);
                }
                held_no = held_no + holding.balance;
            }
            positions.set_balance(&holding.user, holding.outcome, holding.balance);
            i = i + 1;
        }
        proof {
            assert(holdings@.take(i as int) =~= holdings@);
            positions.lemma_wf();
        }
        Ok(
            LmsrMarket {
                initialized: true,
                oracle,
                collateral_token,
                liquidity_param,
                metadata_hash,
                yes_sold,
                no_sold,
                collateral_pool,
                resolved,
                winning_outcome,
                positions,
            },
        )
    }

    /// Fails with `NotInitialized` unless the market has been initialized.
    pub fn require_initialized(&self) -> (r: Result<(), MarketError>)
        ensures
            r == if self@.initialized {
                Ok::<(), MarketError>(())
            } else {
                Err::<(), MarketError>(MarketError::NotInitialized)
            },
    {
        if !self.initialized {
            return Err(MarketError::NotInitialized);
        }
        Ok(())
    }

    /// Fails with `AlreadyResolved` if the market has been resolved.
    pub fn require_not_resolved(&self) -> (r: Result<(), MarketError>)
        ensures
            r == if self@.resolved {
                Err::<(), MarketError>(MarketError::AlreadyResolved)
            } else {
                Ok::<(), MarketError>(())
            },
    {
        if self.resolved {
            return Err(MarketError::AlreadyResolved);
        }
        Ok(())
    }

    /// Fails with `NotResolved` unless the market has been resolved.
    pub fn require_resolved(&self) -> (r: Result<(), MarketError>)
        ensures
            r == if self@.resolved {
                Ok::<(), MarketError>(())
            } else {
                Err::<(), MarketError>(MarketError::NotResolved)
            },
    {
        if !self.resolved {
            return Err(MarketError::NotResolved);
        }
        Ok(())
    }

    /// Opens the market: records the oracle, the collateral asset, the
    /// liquidity parameter and the metadata reference, and takes the
    /// initial funding, which the oracle owes, into the pool.
    ///
    /// The funding must cover `b * ln(2)`, the most that the market maker
    /// can lose.
    pub fn initialize(
        &mut self,
        oracle: Address,
        collateral_token: Address,
        liquidity_param: i128,
        metadata_hash: String,
        initial_funding: i128,
    ) -> (r: Result<(), MarketError>)
        requires
            old(self).wf(),
        ensures
            final(self).wf(),
            r == old(self)@.initialize_result(liquidity_param as int, initial_funding as int),
            final(self)@ == if r is Ok {
                old(self)@.after_initialize(
                    oracle@,
                    collateral_token@,
                    liquidity_param as int,
                    metadata_hash@,
                    initial_funding as int,
                )
            } else {
                old(self)@
            },
    {
        if self.initialized {
            return Err(MarketError::AlreadyInitialized);
        }
        if liquidity_param <= 0 {
            return Err(MarketError::InvalidLiquidity);
        }
        let required = initial_liquidity(liquidity_param)?;
        if initial_funding < required {
            return Err(MarketError::InvalidAmount);
        }
        if initial_funding > MAX_FUNDING {
            return Err(MarketError::Overflow);
        }
        proof {
            lemma_initialize_valid(
                self@,
                oracle@,
                collateral_token@,
                liquidity_param as int,
                metadata_hash@,
                initial_funding as int,
            );
        }
        self.oracle = oracle;
        self.collateral_token = collateral_token;
        self.liquidity_param = liquidity_param;
        self.metadata_hash = metadata_hash;
        self.yes_sold = 0;
        self.no_sold = 0;
        self.collateral_pool = initial_funding;
        self.resolved = false;
        self.initialized = true;
        Ok(())
    }

    /// Checks that a trade of `amount` tokens of `outcome` can be priced:
    /// the market is open, the outcome is YES or NO, and the amount is
    /// positive.
    pub fn check_trade(&self, outcome: u32, amount: i128) -> (r: Result<(), MarketError>)
        ensures
            r == self@.trade_check(outcome, amount as int),
    {
        self.require_initialized()?;
        self.require_not_resolved()?;
        if outcome != OUTCOME_YES && outcome != OUTCOME_NO {
            return Err(MarketError::InvalidOutcome);
        }
        if amount <= 0 {
            return Err(MarketError::InvalidAmount);
        }
        Ok(())
    }

    /// Buys `amount` tokens of `outcome` (0 for YES, 1 for NO) for `user`,
    /// unless they cost more than `max_cost`.
    ///
    /// Returns the cost, which `user` owes to the market. The cost is added
    /// to the pool, and the amount to the tokens issued and to the user's
    /// balance. A purchase that would leave the pool negative fails with
    /// `InsufficientPool`.
    pub fn buy(&mut self, user: &Address, outcome: u32, amount: i128, max_cost: i128) -> (r: Result<
        i128,
        MarketError,
    >)
        requires
            old(self).wf(),
        ensures
            final(self).wf(),
            agrees(r, old(self)@.buy_result(outcome, amount as int, max_cost as int)),
            final(self)@ == match r {
                Ok(cost) => old(self)@.after_buy(user@, outcome, amount as int, cost as int),
                Err(_) => old(self)@,
            },
    {
        self.check_trade(outcome, amount)?;
        let cost = calculate_buy_cost(self.yes_sold, self.no_sold, amount, outcome, self.liquidity_param)?;
        if cost > max_cost {
            return Err(MarketError::SlippageExceeded);
        }
        let pool = match self.collateral_pool.checked_add(cost) {
            Some(p) => p,
            None => { return Err(MarketError::Overflow); },
        };
        if pool < 0 {
            return Err(MarketError::InsufficientPool);
        }
        let balance = self.positions.balance(user, outcome);
        proof {
            lemma_balance_range(self@, user@, outcome);
            lemma_buy_valid(self@, user@, outcome, amount as int, max_cost as int);
        }
        if outcome == OUTCOME_YES {
            self.yes_sold = self.yes_sold + amount;
        } else {
            self.no_sold = self.no_sold + amount;
        }
        self.collateral_pool = pool;
        self.positions.set_balance(user, outcome, balance + amount);
        Ok(cost)
    }

    /// Sells `amount` tokens of `outcome` (0 for YES, 1 for NO) that `user`
    /// holds, unless they return less than `min_return`.
    ///
    /// Returns the proceeds, which the market owes to `user`. The proceeds
    /// are taken from the pool, and the amount from the tokens issued and
    /// from the user's balance.
    pub fn sell(&mut self, user: &Address, outcome: u32, amount: i128, min_return: i128) -> (r: Result<
        i128,
        MarketError,
    >)
        requires
            old(self).wf(),
        ensures
            final(self).wf(),
            agrees(r, old(self)@.sell_result(user@, outcome, amount as int, min_return as int)),
            final(self)@ == match r {
                Ok(returned) => old(self)@.after_sell(user@, outcome, amount as int, returned as int),
                Err(_) => old(self)@,
            },
    {
        self.check_trade(outcome, amount)?;
        let balance = self.positions.balance(user, outcome);
        if balance < amount {
            return Err(MarketError::InsufficientBalance);
        }
        let return_amount = calculate_sell_return(
            self.yes_sold,
            self.no_sold,
            amount,
            outcome,
            self.liquidity_param,
        )?;
        if return_amount < min_return {
            return Err(MarketError::ReturnTooLow);
        }
        if self.collateral_pool < return_amount {
            return Err(MarketError::InsufficientPool);
        }
        let pool = match self.collateral_pool.checked_sub(return_amount) {
            Some(p) => p,
            None => { return Err(MarketError::Overflow); },
        };
        proof {
            lemma_balance_range(self@, user@, outcome);
            lemma_sell_valid(self@, user@, outcome, amount as int, min_return as int);
        }
        if outcome == OUTCOME_YES {
            self.yes_sold = self.yes_sold - amount;
        } else {
            self.no_sold = self.no_sold - amount;
        }
        self.collateral_pool = pool;
        self.positions.set_balance(user, outcome, balance - amount);
        Ok(return_amount)
    }

    /// Resolves the market to `winning_outcome` (0 for YES, 1 for NO).
    ///
    /// Only the oracle may resolve, and only once: a resolved market stays
    /// resolved, with the same winner.
    pub fn resolve(&mut self, oracle: &Address, winning_outcome: u32) -> (r: Result<(), MarketError>)
        requires
            old(self).wf(),
        ensures
            final(self).wf(),
            r == old(self)@.resolve_result(oracle@, winning_outcome),
            final(self)@ == if r is Ok {
                old(self)@.after_resolve(winning_outcome)
            } else {
                old(self)@
            },
    {
        self.require_initialized()?;
        self.require_not_resolved()?;
        if winning_outcome != OUTCOME_YES && winning_outcome != OUTCOME_NO {
            return Err(MarketError::InvalidOutcome);
        }
        if *oracle != self.oracle {
            return Err(MarketError::Unauthorized);
        }
        proof {
            lemma_resolve_valid(self@, oracle@, winning_outcome);
        }
        self.resolved = true;
        self.winning_outcome = winning_outcome;
        Ok(())
    }

    /// Pays out the winning tokens of `user`, each worth one unit of
    /// collateral, less the claim fee.
    ///
    /// Returns the payout, which the market owes to `user`. The user's
    /// winning balance becomes zero, the payout leaves the pool, and the fee
    /// stays in it. The fee is rounded down, so that it vanishes on
    /// balances of fewer than 50 units.
    pub fn claim(&mut self, user: &Address) -> (r: Result<i128, MarketError>)
        requires
            old(self).wf(),
        ensures
            final(self).wf(),
            agrees(r, old(self)@.claim_result(user@)),
            final(self)@ == match r {
                Ok(payout) => old(self)@.after_claim(user@, payout as int),
                Err(_) => old(self)@,
            },
    {
        self.require_initialized()?;
        self.require_resolved()?;
        let winning_balance = self.positions.balance(user, self.winning_outcome);
        if winning_balance <= 0 {
            return Err(MarketError::NothingToClaim);
        }
        let gross_payout = winning_balance;
        let fee = match gross_payout.checked_mul(CLAIM_FEE_BPS) {
            Some(scaled) => scaled / BPS_DENOMINATOR,
            None => { return Err(MarketError::Overflow); },
        };
        proof {
            lemma_claim_fee_range(gross_payout as int);
        }
        let user_payout = match gross_payout.checked_sub(fee) {
            Some(p) => p,
            None => { return Err(MarketError::Overflow); },
        };
        if self.collateral_pool < user_payout {
            return Err(MarketError::InsufficientPool);
        }
        proof {
            lemma_claim_valid(self@, user@);
        }
        self.positions.set_balance(user, self.winning_outcome, 0);
        self.collateral_pool = self.collateral_pool - user_payout;
        Ok(user_payout)
    }

    /// Withdraws what is left in the pool of a resolved market: the stakes
    /// of the losing side and the fees.
    ///
    /// Only the oracle may withdraw. Returns the amount, which the market
    /// owes to the oracle, and leaves the pool empty.
    pub fn withdraw_remaining(&mut self, oracle: &Address) -> (r: Result<i128, MarketError>)
        requires
            old(self).wf(),
        ensures
            final(self).wf(),
            agrees(r, old(self)@.withdraw_result(oracle@)),
            final(self)@ == if r is Ok {
                old(self)@.after_withdraw()
            } else {
                old(self)@
            },
    {
        self.require_initialized()?;
        self.require_resolved()?;
        if *oracle != self.oracle {
            return Err(MarketError::Unauthorized);
        }
        let pool = self.collateral_pool;
        if pool <= 0 {
            return Err(MarketError::NothingToClaim);
        }
        proof {
            lemma_withdraw_valid(self@, oracle@);
        }
        self.collateral_pool = 0;
        Ok(pool)
    }

    /// The price of `outcome` (0 for YES, 1 for NO): a fixed-point
    /// probability between 0 and 1.0.
    pub fn get_price(&self, outcome: u32) -> (r: Result<i128, MarketError>)
        ensures
            agrees(r, self@.price_result(outcome)),
            r matches Ok(p) ==> 0 <= p <= crate::fixed_point::SCALE_FACTOR,
    {
        self.require_initialized()?;
        calculate_price(self.yes_sold, self.no_sold, outcome, self.liquidity_param)
    }

    /// Quotes a purchase of `amount` tokens of `outcome`: what it would
    /// cost, and the price of the outcome after it. The market does not
    /// change.
    pub fn get_quote(&self, outcome: u32, amount: i128) -> (r: Result<(i128, i128), MarketError>)
        requires
            self.wf(),
        ensures
            match r {
                Ok((cost, price_after)) => self@.quote_result(outcome, amount as int) == Ok::<
                    (int, int),
                    MarketError,
                >((cost as int, price_after as int)),
                Err(e) => self@.quote_result(outcome, amount as int) == Err::<(int, int), MarketError>(
                    e,
                ),
            },
    {
        self.check_trade(outcome, amount)?;
        let cost = calculate_buy_cost(self.yes_sold, self.no_sold, amount, outcome, self.liquidity_param)?;
        let (new_q_yes, new_q_no) = if outcome == OUTCOME_YES {
            (self.yes_sold + amount, self.no_sold)
        } else {
            (self.yes_sold, self.no_sold + amount)
        };
        let price_after = calculate_price(new_q_yes, new_q_no, outcome, self.liquidity_param)?;
        Ok((cost, price_after))
    }

    /// Quotes a sale of `amount` tokens of `outcome`: what it would return,
    /// and the price of the outcome after it. The market does not change.
    pub fn get_sell_quote(&self, outcome: u32, amount: i128) -> (r: Result<(i128, i128), MarketError>)
        requires
            self.wf(),
        ensures
            match r {
                Ok((returned, price_after)) => self@.sell_quote_result(outcome, amount as int) == Ok::<
                    (int, int),
                    MarketError,
                >((returned as int, price_after as int)),
                Err(e) => self@.sell_quote_result(outcome, amount as int) == Err::<
                    (int, int),
                    MarketError,
                >(e),
            },
    {
        self.check_trade(outcome, amount)?;
        let return_amount = calculate_sell_return(
            self.yes_sold,
            self.no_sold,
            amount,
            outcome,
            self.liquidity_param,
        )?;
        let (new_q_yes, new_q_no) = if outcome == OUTCOME_YES {
            (self.yes_sold - amount, self.no_sold)
        } else {
            (self.yes_sold, self.no_sold - amount)
        };
        let price_after = calculate_price(new_q_yes, new_q_no, outcome, self.liquidity_param)?;
        Ok((return_amount, price_after))
    }

    /// The balance of `user` for `outcome`; zero where none is recorded,
    /// and on a market that has not been initialized.
    pub fn get_balance(&self, user: &Address, outcome: u32) -> (b: i128)
        requires
            self.wf(),
        ensures
            b == self@.balance(user@, outcome),
    {
        self.positions.balance(user, outcome)
    }

    /// The tokens issued of YES and of NO, the collateral pool, and whether
    /// the market is resolved.
    pub fn get_state(&self) -> (r: Result<(i128, i128, i128, bool), MarketError>)
        ensures
            match r {
                Ok((yes_sold, no_sold, pool, resolved)) => {
                    &&& self@.initialized
                    &&& yes_sold == self@.yes_sold
                    &&& no_sold == self@.no_sold
                    &&& pool == self@.collateral_pool
                    &&& resolved == self@.resolved
                },
                Err(e) => !self@.initialized && e == MarketError::NotInitialized,
            },
    {
        self.require_initialized()?;
        Ok((self.yes_sold, self.no_sold, self.collateral_pool, self.resolved))
    }

    /// The principal that may resolve the market.
    pub fn get_oracle(&self) -> (r: Result<Address, MarketError>)
        ensures
            match r {
                Ok(oracle) => self@.initialized && oracle@ == self@.oracle,
                Err(e) => !self@.initialized && e == MarketError::NotInitialized,
            },
    {
        self.require_initialized()?;
        Ok(self.oracle.clone())
    }

    /// The liquidity parameter `b`.
    pub fn get_liquidity_param(&self) -> (r: Result<i128, MarketError>)
        ensures
            match r {
                Ok(b) => self@.initialized && b == self@.liquidity_param,
                Err(e) => !self@.initialized && e == MarketError::NotInitialized,
            },
    {
        self.require_initialized()?;
        Ok(self.liquidity_param)
    }

    /// The outcome that won, once the market is resolved.
    pub fn get_winning_outcome(&self) -> (r: Result<u32, MarketError>)
        ensures
            r == match self@.settled_check() {
                Ok(_) => Ok::<u32, MarketError>(self@.winning_outcome),
                Err(e) => Err::<u32, MarketError>(e),
            },
    {
        self.require_initialized()?;
        self.require_resolved()?;
        Ok(self.winning_outcome)
    }

    /// The reference to the market's description.
    pub fn get_metadata_hash(&self) -> (r: Result<String, MarketError>)
        ensures
            match r {
                Ok(hash) => self@.initialized && hash@ == self@.metadata_hash,
                Err(e) => !self@.initialized && e == MarketError::NotInitialized,
            },
    {
        self.require_initialized()?;
        Ok(self.metadata_hash.clone())
    }

    /// The asset that the market settles in.
    pub fn get_collateral_token(&self) -> (r: Result<Address, MarketError>)
        ensures
            match r {
                Ok(token) => self@.initialized && token@ == self@.collateral_token,
                Err(e) => !self@.initialized && e == MarketError::NotInitialized,
            },
    {
        self.require_initialized()?;
        Ok(self.collateral_token.clone())
    }
}

} // verus!
