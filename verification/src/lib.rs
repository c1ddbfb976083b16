//! A constant-product automated market maker over a pair of fungible tokens,
//! together with the token ledger it settles against.
//!
//! * [`types`]: account identities and 256-bit unsigned amounts.
//! * [`math`]: integer square root and minimum on 256-bit amounts.
//! * [`sums`]: sums of the values of a map over a finite set of keys.
//! * [`erc20`]: the fungible-token ledger.
//! * [`amm`]: the liquidity pool.

pub mod types;
pub mod math;
pub mod sums;
pub mod erc20;
pub mod amm;
