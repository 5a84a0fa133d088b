//! The registry of deployed markets.
//!
//! A factory keeps what every new market is deployed with (the code of the
//! market contract and the default collateral asset) and the list of the
//! markets deployed so far. Deploying itself is the caller's work: the
//! factory says with what a market is to be deployed, and records the
//! address that the deployment gave.

use vstd::prelude::*;
use crate::address::Address;

verus! {

/// Why a factory operation was rejected.
#[derive(Copy, Clone, Debug, PartialEq, Eq, Structural, PartialOrd, Ord)]
pub enum FactoryError {
    /// The factory has already been initialized.
    AlreadyInitialized,
    /// The factory has not been initialized yet.
    NotInitialized,
    /// The caller is not the factory's admin.
    Unauthorized,
    /// The market could not be deployed or recorded.
    DeploymentFailed,
    /// No market is recorded under the index.
    IndexOutOfBounds,
    /// A persisted field of the factory is missing.
    StorageCorrupted,
}

impl FactoryError {
    /// The stable numeric code of each failure kind.
    pub open spec fn spec_code(self) -> u32 {
        match self {
            FactoryError::AlreadyInitialized => 1,
            FactoryError::NotInitialized => 2,
            FactoryError::Unauthorized => 3,
            FactoryError::DeploymentFailed => 4,
            FactoryError::IndexOutOfBounds => 5,
            FactoryError::StorageCorrupted => 6,
        }
    }

    /// Returns the stable numeric code under which this failure is reported
    /// to clients.
    #[verifier::when_used_as_spec(spec_code)]
    pub fn code(self) -> (c: u32)
        ensures
            c == self.spec_code(),
    {
        match self {
            FactoryError::AlreadyInitialized => 1,
            FactoryError::NotInitialized => 2,
            FactoryError::Unauthorized => 3,
            FactoryError::DeploymentFailed => 4,
            FactoryError::IndexOutOfBounds => 5,
            FactoryError::StorageCorrupted => 6,
        }
    }
}

/// The abstract state of a factory.
#[verifier::ext_equal]
pub struct FactoryState {
    /// Whether the factory has been initialized.
    pub initialized: bool,
    /// The principal that may reconfigure the factory.
    pub admin: Seq<char>,
    /// The hash of the market contract's code.
    pub market_wasm_hash: Seq<u8>,
    /// The asset that new markets settle in.
    pub default_collateral_token: Seq<char>,
    /// The markets deployed so far, oldest first.
    pub markets: Seq<Seq<char>>,
}

/// What a market is to be deployed with.
#[derive(Debug)]
pub struct DeploymentRequest {
    /// The hash of the market contract's code.
    pub market_wasm_hash: [u8; 32],
    /// The principal that may resolve the market.
    pub oracle: Address,
    /// The asset that the market settles in.
    pub collateral_token: Address,
    /// The liquidity parameter of the market.
    pub liquidity_param: i128,
    /// The reference to the market's description.
    pub metadata_hash: String,
    /// The collateral that the oracle funds the market with.
    pub initial_funding: i128,
}

/// A factory of prediction markets.
#[derive(Debug)]
pub struct MarketFactory {
    initialized: bool,
    admin: Address,
    market_wasm_hash: [u8; 32],
    default_collateral_token: Address,
    markets: Vec<Address>,
}

impl View for MarketFactory {
    type V = FactoryState;

    closed spec fn view(&self) -> FactoryState {
        FactoryState {
            initialized: self.initialized,
            admin: self.admin@,
            market_wasm_hash: self.market_wasm_hash@,
            default_collateral_token: self.default_collateral_token@,
            markets: Seq::new(self.markets@.len(), |i: int| self.markets@[i]@),
        }
    }
}

impl MarketFactory {
    /// The factory's invariant: the number of its markets fits in 32 bits.
    pub closed spec fn wf(&self) -> bool {
        self.markets@.len() <= u32::MAX
    }

    /// The number of markets of a well-formed factory fits in 32 bits.
    pub proof fn lemma_wf(&self)
        requires
            self.wf(),
        ensures
            self@.markets.len() <= u32::MAX,
    {
    }

    /// A factory that has not been initialized and has deployed nothing.
    pub fn new() -> (f: MarketFactory)
        ensures
            f.wf(),
            !f@.initialized,
            f@.markets.len() == 0,
    {
        MarketFactory {
            initialized: false,
            admin: Address::new(String::new()),
            market_wasm_hash: [0u8; 32],
            default_collateral_token: Address::new(String::new()),
            markets: Vec::new(),
        }
    }

    /// Fails with `NotInitialized` unless the factory has been initialized.
    pub fn require_initialized(&self) -> (r: Result<(), FactoryError>)
        ensures
            r == if self@.initialized {
                Ok::<(), FactoryError>(())
            } else {
                Err::<(), FactoryError>(FactoryError::NotInitialized)
            },
    {
        if !self.initialized {
            return Err(FactoryError::NotInitialized);
        }
        Ok(())
    }

    /// Fails with `Unauthorized` unless `caller` is the admin.
    pub fn require_admin(&self, caller: &Address) -> (r: Result<(), FactoryError>)
        ensures
            r == if caller@ == self@.admin {
                Ok::<(), FactoryError>(())
            } else {
                Err::<(), FactoryError>(FactoryError::Unauthorized)
            },
    {
        if *caller != self.admin {
            return Err(FactoryError::Unauthorized);
        }
        Ok(())
    }

    /// Sets up the factory with its admin, the hash of the market
    /// contract's code and the default collateral asset. It has deployed no
    /// market yet.
    pub fn initialize(
        &mut self,
        admin: Address,
        market_wasm_hash: [u8; 32],
        default_collateral_token: Address,
    ) -> (r: Result<(), FactoryError>)
        requires
            old(self).wf(),
        ensures
            final(self).wf(),
            r == if old(self)@.initialized {
                Err::<(), FactoryError>(FactoryError::AlreadyInitialized)
            } else {
                Ok::<(), FactoryError>(())
            },
            final(self)@ == if r is Ok {
                FactoryState {
                    initialized: true,
                    admin: admin@,
                    market_wasm_hash: market_wasm_hash@,
                    default_collateral_token: default_collateral_token@,
                    markets: Seq::<Seq<char>>::empty(),
                }
            } else {
                old(self)@
            },
    {
        if self.initialized {
            return Err(FactoryError::AlreadyInitialized);
        }
        self.admin = admin;
        self.market_wasm_hash = market_wasm_hash;
        self.default_collateral_token = default_collateral_token;
        self.markets = Vec::new();
        self.initialized = true;
        Ok(())
    }

    /// Says with what a new market is to be deployed: the market
    /// contract's code and the default collateral asset of this factory,
    /// and the oracle, liquidity, metadata and funding that the caller
    /// gives. The factory does not change.
    pub fn deployment_request(
        &self,
        oracle: Address,
        liquidity_param: i128,
        metadata_hash: String,
        initial_funding: i128,
    ) -> (r: Result<DeploymentRequest, FactoryError>)
        ensures
            match r {
                Ok(request) => {
                    &&& self@.initialized
                    &&& request.market_wasm_hash@ == self@.market_wasm_hash
                    &&& request.oracle@ == oracle@
                    &&& request.collateral_token@ == self@.default_collateral_token
                    &&& request.liquidity_param == liquidity_param
                    &&& request.metadata_hash@ == metadata_hash@
                    &&& request.initial_funding == initial_funding
                },
                Err(e) => !self@.initialized && e == FactoryError::NotInitialized,
            },
    {
        self.require_initialized()?;
        Ok(
            DeploymentRequest {
                market_wasm_hash: self.market_wasm_hash,
                oracle,
                collateral_token: self.default_collateral_token.clone(),
                liquidity_param,
                metadata_hash,
                initial_funding,
            },
        )
    }

    /// Records the market that was deployed at `market` as the newest of
    /// this factory's markets, and returns its address.
    ///
    /// Fails with `DeploymentFailed` where the list of markets is full.
    pub fn deploy_market(&mut self, market: Address) -> (r: Result<Address, FactoryError>)
        requires
            old(self).wf(),
        ensures
            final(self).wf(),
            match r {
                Ok(address) => {
                    &&& old(self)@.initialized
                    &&& old(self)@.markets.len() < u32::MAX
                    &&& address@ == market@
                    &&& final(self)@ == FactoryState {
                        markets: old(self)@.markets.push(market@),
                        ..old(self)@
                    }
                },
                Err(e) => {
                    &&& final(self)@ == old(self)@
                    &&& e == if !old(self)@.initialized {
                        FactoryError::NotInitialized
                    } else {
                        FactoryError::DeploymentFailed
                    }
                    &&& !old(self)@.initialized || old(self)@.markets.len() >= u32::MAX
                },
            },
    {
        self.require_initialized()?;
        if self.markets.len() >= u32::MAX as usize {
            return Err(FactoryError::DeploymentFailed);
        }
        let address = market.clone();
        self.markets.push(market);
        assert(self@.markets =~= old(self)@.markets.push(market@));
        Ok(address)
    }

    /// The addresses of all markets deployed so far, oldest first.
    pub fn list_markets(&self) -> (r: Result<Vec<Address>, FactoryError>)
        ensures
            match r {
                Ok(markets) => {
                    &&& self@.initialized
                    &&& markets@.len() == self@.markets.len()
                    &&& forall|i: int| 0 <= i < markets@.len() ==> markets@[i]@ == self@.markets[i]
                },
                Err(e) => !self@.initialized && e == FactoryError::NotInitialized,
            },
    {
        self.require_initialized()?;
        let mut markets: Vec<Address> = Vec::new();
        let mut i: usize = 0;
        while i < self.markets.len()
            invariant
                i <= self.markets@.len(),
                markets@.len() == i,
                forall|j: int| 0 <= j < i ==> markets@[j]@ == self.markets@[j]@,
            decreases self.markets@.len() - i,
        {
            markets.push(self.markets[i].clone());
            i = i + 1;
        }
        Ok(markets)
    }

    /// The number of markets deployed so far.
    pub fn market_count(&self) -> (r: Result<u32, FactoryError>)
        requires
            self.wf(),
        ensures
            match r {
                Ok(count) => self@.initialized && count == self@.markets.len(),
                Err(e) => !self@.initialized && e == FactoryError::NotInitialized,
            },
    {
        self.require_initialized()?;
        Ok(self.markets.len() as u32)
    }

    /// The address of the market deployed as number `index`, counting from
    /// zero.
    pub fn get_market(&self, index: u32) -> (r: Result<Address, FactoryError>)
        ensures
            match r {
                Ok(market) => {
                    &&& self@.initialized
                    &&& index < self@.markets.len()
                    &&& market@ == self@.markets[index as int]
                },
                Err(e) => e == if !self@.initialized {
                    FactoryError::NotInitialized
                } else {
                    FactoryError::IndexOutOfBounds
                } && (!self@.initialized || index >= self@.markets.len()),
            },
    {
        self.require_initialized()?;
        if index as usize >= self.markets.len() {
            return Err(FactoryError::IndexOutOfBounds);
        }
        Ok(self.markets[index as usize].clone())
    }

    /// The principal that may reconfigure the factory.
    pub fn get_admin(&self) -> (r: Result<Address, FactoryError>)
        ensures
            match r {
                Ok(admin) => self@.initialized && admin@ == self@.admin,
                Err(e) => !self@.initialized && e == FactoryError::NotInitialized,
            },
    {
        self.require_initialized()?;
        Ok(self.admin.clone())
    }

    /// The hash of the market contract's code.
    pub fn get_market_wasm_hash(&self) -> (r: Result<[u8; 32], FactoryError>)
        ensures
            match r {
                Ok(hash) => self@.initialized && hash@ == self@.market_wasm_hash,
                Err(e) => !self@.initialized && e == FactoryError::NotInitialized,
            },
    {
        self.require_initialized()?;
        Ok(self.market_wasm_hash)
    }

    /// What a change to the configuration returns: only the admin of an
    /// initialized factory may make one.
    pub open spec fn admin_check(state: FactoryState, admin: Seq<char>) -> Result<(), FactoryError> {
        if !state.initialized {
            Err(FactoryError::NotInitialized)
        } else if admin != state.admin {
            Err(FactoryError::Unauthorized)
        } else {
            Ok(())
        }
    }

    /// Replaces the hash of the market contract's code, for markets
    /// deployed from now on.
    pub fn set_market_wasm_hash(&mut self, admin: &Address, new_wasm_hash: [u8; 32]) -> (r: Result<
        (),
        FactoryError,
    >)
        ensures
            r == Self::admin_check(old(self)@, admin@),
            final(self)@ == if r is Ok {
                FactoryState { market_wasm_hash: new_wasm_hash@, ..old(self)@ }
            } else {
                old(self)@
            },
            old(self).wf() ==> final(self).wf(),
    {
        self.require_initialized()?;
        self.require_admin(admin)?;
        self.market_wasm_hash = new_wasm_hash;
        Ok(())
    }

    /// Replaces the default collateral asset, for markets deployed from now
    /// on.
    pub fn set_default_collateral_token(&mut self, admin: &Address, new_token: Address) -> (r: Result<
        (),
        FactoryError,
    >)
        ensures
            r == Self::admin_check(old(self)@, admin@),
            final(self)@ == if r is Ok {
                FactoryState { default_collateral_token: new_token@, ..old(self)@ }
            } else {
                old(self)@
            },
            old(self).wf() ==> final(self).wf(),
    {
        self.require_initialized()?;
        self.require_admin(admin)?;
        self.default_collateral_token = new_token;
        Ok(())
    }
}

} // verus!
