//! Pool accounting and pricing core of a constant-product automated
//! market maker.
//!
//! The crate canonicalizes asset pairs, derives deterministic pool
//! identities, mints and burns liquidity-provider claims with exact
//! integer arithmetic, and prices swaps under a constant-product rule
//! with fees and slippage bounds. Asset custody, origin checking and
//! event delivery are the host's business: the operations here take
//! plain values, update the pool ledger, and tell the caller which
//! transfers to perform.

pub mod asset;
pub mod dex;
pub mod error;
pub mod ledger;
pub mod math;
pub mod pool;
pub mod pool_id;
