//! Core of a constant-product automated market maker: exact-integer pricing
//! math, a pool-share ledger, the pair state machine (mint, burn, swap, fee
//! accrual, reentrancy guard), a pair registry, and a multi-hop router.
//!
//! The host ledger is out of scope: token identities and account identities
//! are opaque, totally-ordered values modelled as `u64`; collateral balances
//! that only the host's token contracts know are handed in as arguments.

use vstd::prelude::*;

pub mod errors;
pub mod factory;
pub mod library;
pub mod pair;
pub mod pair_token;
pub mod router;

verus! {

/// Fixed floor of pool shares permanently locked by the first mint of a pair,
/// so that the share price cannot be manipulated at zero supply.
pub const MINIMUM_LIQUIDITY: i128 = 1000;

} // verus!
