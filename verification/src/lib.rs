//! A binary-outcome prediction market priced by the Logarithmic Market
//! Scoring Rule (LMSR), in deterministic integer fixed-point arithmetic.
//!
//! Every executable function in this crate carries a contract that Verus
//! proves: the fixed-point exponential and logarithm, the pricing engine
//! built on them, and the market state machine that tracks positions,
//! resolution and settlement.

pub mod error;
pub mod fixed_point;

pub mod lmsr;

pub mod address;
pub mod positions;
pub mod model;
pub mod market;
pub mod storage;
pub mod factory;
