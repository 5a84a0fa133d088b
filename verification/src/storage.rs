//! The persisted form of a market.
//!
//! A market is kept on the ledger as a set of named fields and one balance
//! for each user and outcome. [`StoredMarket`] holds the fields as they were
//! read, each present or missing, and a [`Holding`] is one stored balance.
//! The spec functions here say which stored values stand for a market, and
//! for which one.

use vstd::prelude::*;
use crate::address::Address;
use crate::lmsr::OUTCOME_YES;
use crate::model::{is_outcome, MarketState};
use crate::positions::{held_in, lemma_held_insert, PositionKey};

verus! {

/// The fields of a market as read from storage. A field that storage does
/// not hold is `None`.
#[derive(Debug)]
pub struct StoredMarket {
    /// The principal that may resolve the market.
    pub oracle: Option<Address>,
    /// The asset that the market settles in.
    pub collateral_token: Option<Address>,
    /// The liquidity parameter `b`.
    pub liquidity_param: Option<i128>,
    /// The reference to the market's description.
    pub metadata_hash: Option<String>,
    /// The YES tokens issued and not sold back.
    pub yes_sold: Option<i128>,
    /// The NO tokens issued and not sold back.
    pub no_sold: Option<i128>,
    /// The collateral that the market holds.
    pub collateral_pool: Option<i128>,
    /// Whether the market has been resolved.
    pub resolved: Option<bool>,
    /// The outcome that won; stored only once the market is resolved.
    pub winning_outcome: Option<u32>,
}

/// One stored balance: what `user` holds of `outcome`.
#[derive(Debug)]
pub struct Holding {
    /// The holder.
    pub user: Address,
    /// The outcome held.
    pub outcome: u32,
    /// The number of tokens held.
    pub balance: i128,
}

impl Holding {
    /// The key under which this holding is stored.
    pub open spec fn key(self) -> PositionKey {
        (self.user@, self.outcome)
    }
}

/// No two holdings are stored under the same key.
pub open spec fn holdings_distinct(holdings: Seq<Holding>) -> bool {
    forall|i: int, j: int|
        0 <= i < j < holdings.len() ==> #[trigger] holdings[i].key() != #[trigger] holdings[j].key()
}

/// Every holding is for YES or NO and is not negative.
pub open spec fn holdings_valid(holdings: Seq<Holding>) -> bool {
    forall|i: int|
        0 <= i < holdings.len() ==> is_outcome(#[trigger] holdings[i].outcome) && holdings[i].balance
            >= 0
}

/// The balances that the holdings record.
pub open spec fn holdings_map(holdings: Seq<Holding>) -> Map<PositionKey, int>
    decreases holdings.len(),
{
    if holdings.len() == 0 {
        Map::empty()
    } else {
        holdings_map(holdings.drop_last()).insert(
            holdings.last().key(),
            holdings.last().balance as int,
        )
    }
}

impl StoredMarket {
    /// Whether every field of an initialized market is present: all but the
    /// winning outcome, and that one too if the market is resolved.
    pub open spec fn complete(self) -> bool {
        &&& self.oracle is Some
        &&& self.collateral_token is Some
        &&& self.liquidity_param is Some
        &&& self.metadata_hash is Some
        &&& self.yes_sold is Some
        &&& self.no_sold is Some
        &&& self.collateral_pool is Some
        &&& self.resolved is Some
        &&& self.resolved == Some(true) ==> self.winning_outcome is Some
    }

    /// The market that complete fields and the given holdings stand for.
    pub open spec fn state(self, holdings: Seq<Holding>) -> MarketState {
        MarketState {
            initialized: true,
            oracle: self.oracle->Some_0@,
            collateral_token: self.collateral_token->Some_0@,
            liquidity_param: self.liquidity_param->Some_0 as int,
            metadata_hash: self.metadata_hash->Some_0@,
            yes_sold: self.yes_sold->Some_0 as int,
            no_sold: self.no_sold->Some_0 as int,
            collateral_pool: self.collateral_pool->Some_0 as int,
            resolved: self.resolved->Some_0,
            winning_outcome: match self.winning_outcome {
                Some(outcome) => outcome,
                None => OUTCOME_YES,
            },
            balances: holdings_map(holdings),
        }
    }

    /// Whether the fields and holdings stand for an initialized market: the
    /// fields are complete, no two holdings share a key, every holding is
    /// valid, and the state they describe is valid.
    pub open spec fn consistent(self, holdings: Seq<Holding>) -> bool {
        &&& self.complete()
        &&& holdings_distinct(holdings)
        &&& holdings_valid(holdings)
        &&& self.state(holdings).valid()
    }
}

/// The holdings record a balance exactly under the keys of their entries.
pub proof fn lemma_holdings_domain(holdings: Seq<Holding>, k: PositionKey)
    ensures
        holdings_map(holdings).dom().finite(),
        holdings_map(holdings).dom().contains(k) <==> exists|i: int|
            0 <= i < holdings.len() && #[trigger] holdings[i].key() == k,
    decreases holdings.len(),
{
    if holdings.len() > 0 {
        let rest = holdings.drop_last();
        lemma_holdings_domain(rest, k);
        if holdings_map(holdings).dom().contains(k) {
            if k == holdings.last().key() {
                assert(holdings[holdings.len() - 1].key() == k);
            } else {
                let i = choose|i: int| 0 <= i < rest.len() && #[trigger] rest[i].key() == k;
                assert(holdings[i].key() == k);
            }
        }
        if exists|i: int| 0 <= i < holdings.len() && #[trigger] holdings[i].key() == k {
            let i = choose|i: int| 0 <= i < holdings.len() && #[trigger] holdings[i].key() == k;
            if i < rest.len() {
                assert(rest[i].key() == k);
            }
        }
    }
}

/// Among valid holdings under distinct keys, the first `n` hold no more of
/// an outcome than all of them.
pub proof fn lemma_holdings_prefix(holdings: Seq<Holding>, n: int, outcome: u32)
    requires
        holdings_distinct(holdings),
        holdings_valid(holdings),
        0 <= n <= holdings.len(),
    ensures
        held_in(holdings_map(holdings.take(n)), outcome) <= held_in(holdings_map(holdings), outcome),
    decreases holdings.len(),
{
    if n == holdings.len() {
        assert(holdings.take(n) =~= holdings);
    } else {
        let rest = holdings.drop_last();
        let last = holdings.last();
        assert(rest.take(n) =~= holdings.take(n));
        assert(holdings_distinct(rest)) by {
            assert forall|i: int, j: int| 0 <= i < j < rest.len() implies #[trigger] rest[i].key()
                != #[trigger] rest[j].key() by {
                assert(rest[i] == holdings[i] && rest[j] == holdings[j]);
                assert(holdings[i].key() != holdings[j].key());
            }
        }
        assert(holdings_valid(rest)) by {
            assert forall|i: int| 0 <= i < rest.len() implies is_outcome(#[trigger] rest[i].outcome)
                && rest[i].balance >= 0 by {
                assert(rest[i] == holdings[i]);
                assert(is_outcome(holdings[i].outcome));
            }
        }
        lemma_holdings_prefix(rest, n, outcome);
        lemma_holdings_domain(rest, last.key());
        assert(!holdings_map(rest).dom().contains(last.key())) by {
            if holdings_map(rest).dom().contains(last.key()) {
                let i = choose|i: int| 0 <= i < rest.len() && #[trigger] rest[i].key() == last.key();
                assert(holdings[i].key() != holdings[holdings.len() - 1].key());
            }
        }
        assert(is_outcome(holdings[holdings.len() - 1].outcome));
        lemma_held_insert(holdings_map(rest), last.user@, last.outcome, last.balance as int, outcome);
    }
}

} // verus!
