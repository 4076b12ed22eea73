//! Error taxonomy of the market-maker core.
//!
//! Every failure is signalled as a typed error value; no operation panics,
//! wraps silently or truncates. Callers propagate these upward unchanged.

use vstd::prelude::*;

verus! {

/// Errors of the pair registry (factory).
#[derive(Clone, Copy, Debug, PartialEq, Eq, Structural)]
pub enum RaumFiFactoryError {
    NotInitialized,
    CreatePairIdenticalTokens,
    CreatePairAlreadyExists,
    InitializeAlreadyInitialized,
    PairDoesNotExist,
    IndexDoesNotExist,
    PairAlreadyExists,
}

/// Errors raised by the factory's pair-creation and configuration entry
/// points.
#[derive(Clone, Copy, Debug, PartialEq, Eq, Structural)]
pub enum Error {
    IdenticalAddresses,
    ZeroAddress,
    PairExists,
    Forbidden,
    AlreadyInitialized,
    NotInitialized,
    Overflow,
}

/// Errors of the pricing library.
#[derive(Clone, Copy, Debug, PartialEq, Eq, Structural)]
pub enum RaumFiLibraryError {
    NotInitialized,
    CreatePairIdenticalTokens,
    CreatePairAlreadyExists,
    InitializeAlreadyInitialized,
    PairDoesNotExist,
    IndexDoesNotExist,
    IdenticalAddresses,
    InsufficientLiquidity,
    InsufficientAmount,
    InvalidPath,
    InsufficientLiquidityMinted,
    InsufficientTotalSupply,
    InsufficientLiquidityBurned,
    InsufficientBAmount,
    InsufficientAAmount,
    Overflow,
    DivisionByZero,
}

/// Errors of the pair state machine.
#[derive(Clone, Copy, Debug, PartialEq, Eq, Structural)]
pub enum RaumFiPairError {
    Locked,
    AlreadyInitialized,
    Forbidden,
    InsufficientLiquidityMinted,
    InsufficientOutputAmount,
    InsufficientLiquidity,
    InvalidTo,
    InsufficientInputAmount,
    K,
    Overflow,
    CreatePairIdenticalTokens,
    PairTokenError,
    InvalidAmount,
    InsufficientLiquidityBurned,
}

/// Errors of the pool-share ledger.
#[derive(Clone, Copy, Debug, PartialEq, Eq, Structural)]
pub enum PairTokenError {
    InsufficientBalance,
    InsufficientAllowance,
    InvalidAmount,
    Overflow,
}

/// Errors of the multi-hop router.
#[derive(Clone, Copy, Debug, PartialEq, Eq, Structural)]
pub enum RaumFiRouterError {
    NotInitialized,
    AlreadyInitialized,
    DeadlineExpired,
    PairDoesNotExist,
    SortIdenticalTokens,
    InsufficientAAmount,
    InsufficientBAmount,
    InsufficientOutputAmount,
    ExcessiveInputAmount,
    LibraryError(RaumFiLibraryError),
    PairError(RaumFiPairError),
    TokenError(PairTokenError),
    FactoryError(Error),
}

} // verus!
