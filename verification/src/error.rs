//! Failure kinds reported by the pricing engine and the market.

use vstd::prelude::*;

verus! {

/// Why a market operation was rejected.
///
/// A rejected operation leaves the market exactly as it was.
#[derive(Copy, Clone, Debug, PartialEq, Eq, Structural, PartialOrd, Ord)]
pub enum MarketError {
    /// The market has already been initialized.
    AlreadyInitialized,
    /// The market has not been initialized yet.
    NotInitialized,
    /// The market has already been resolved.
    AlreadyResolved,
    /// The market has not been resolved yet.
    NotResolved,
    /// The outcome selector is neither YES (0) nor NO (1).
    InvalidOutcome,
    /// The amount is not positive, or the funding does not cover the
    /// required initial liquidity.
    InvalidAmount,
    /// Fewer tokens are held, or outstanding, than are being sold.
    InsufficientBalance,
    /// The cost of a purchase exceeds the buyer's limit.
    SlippageExceeded,
    /// The proceeds of a sale are below the seller's limit.
    ReturnTooLow,
    /// The caller is not the market's oracle.
    Unauthorized,
    /// The liquidity parameter is not positive.
    InvalidLiquidity,
    /// A value left the range that the arithmetic can represent.
    Overflow,
    /// There is nothing to pay out.
    NothingToClaim,
    /// A persisted field of the market is missing or inconsistent.
    StorageCorrupted,
    /// The collateral pool cannot cover the payment.
    InsufficientPool,
}

impl MarketError {
    /// The stable numeric code of each failure kind.
    pub open spec fn spec_code(self) -> u32 {
        match self {
            MarketError::AlreadyInitialized => 1,
            MarketError::NotInitialized => 2,
            MarketError::AlreadyResolved => 3,
            MarketError::NotResolved => 4,
            MarketError::InvalidOutcome => 5,
            MarketError::InvalidAmount => 6,
            MarketError::InsufficientBalance => 7,
            MarketError::SlippageExceeded => 8,
            MarketError::ReturnTooLow => 9,
            MarketError::Unauthorized => 10,
            MarketError::InvalidLiquidity => 11,
            MarketError::Overflow => 12,
            MarketError::NothingToClaim => 13,
            MarketError::StorageCorrupted => 14,
            MarketError::InsufficientPool => 15,
        }
    }

    /// Returns the stable numeric code under which this failure is reported
    /// to clients.
    #[verifier::when_used_as_spec(spec_code)]
    pub fn code(self) -> (c: u32)
        ensures
            c == self.spec_code(),
            1 <= c <= 15,
    {
        match self {
            MarketError::AlreadyInitialized => 1,
            MarketError::NotInitialized => 2,
            MarketError::AlreadyResolved => 3,
            MarketError::NotResolved => 4,
            MarketError::InvalidOutcome => 5,
            MarketError::InvalidAmount => 6,
            MarketError::InsufficientBalance => 7,
            MarketError::SlippageExceeded => 8,
            MarketError::ReturnTooLow => 9,
            MarketError::Unauthorized => 10,
            MarketError::InvalidLiquidity => 11,
            MarketError::Overflow => 12,
            MarketError::NothingToClaim => 13,
            MarketError::StorageCorrupted => 14,
            MarketError::InsufficientPool => 15,
        }
    }
}

} // verus!
