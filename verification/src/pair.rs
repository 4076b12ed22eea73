//! The pair: a two-asset constant-product pool. It owns reserves for exactly
//! two canonically ordered assets, executes mint, burn and swap under a
//! reentrancy guard, and accrues a protocol fee on square-root growth.
//!
//! Collateral balances live in the host's token contracts; every operation
//! takes the pair's current holdings as arguments. Each operation either
//! completes and commits its whole effect, or fails with a typed error and
//! changes nothing.

use vstd::prelude::*;

use crate::errors::RaumFiPairError;
use crate::library::{spec_sqrt, sqrt_i128};
use crate::pair_token::{spec_balance_of, PairToken, PairTokenStorage};

verus! {

/// Pool shares minted by the fee accrual when the product of the reserves
/// has outgrown the last recorded product: one sixth of the growth,
/// `(rootK - rootKLast) * supply / (rootK * 5 + rootKLast)`, with a
/// saturating numerator.
pub open spec fn spec_fee_liquidity(k_last: int, r0: int, r1: int, supply: int) -> int {
    if k_last == 0 {
        0
    } else {
        let root_k = spec_sqrt((r0 * r1) as nat) as int;
        let root_k_last = spec_sqrt(k_last as nat) as int;
        if root_k > root_k_last {
            let numerator = if (root_k - root_k_last) * supply > i128::MAX {
                i128::MAX as int
            } else {
                (root_k - root_k_last) * supply
            };
            numerator / (root_k * 5 + root_k_last)
        } else {
            0
        }
    }
}

/// The mint decision for a pool in the given state: either the pool shares
/// owed for the deposit that the post-transfer balances show, together with
/// the accrued fee shares and whether this is the bootstrap mint, or the
/// exact error.
pub open spec fn spec_mint_outcome(
    unlocked: bool,
    reserve0: int,
    reserve1: int,
    k_last: int,
    supply: int,
    balance0: int,
    balance1: int,
) -> Result<(int, int, bool), RaumFiPairError> {
    let amount0 = balance0 - reserve0;
    let amount1 = balance1 - reserve1;
    if !unlocked {
        Err(RaumFiPairError::Locked)
    } else if amount0 <= 0 || amount1 <= 0 {
        Err(RaumFiPairError::InvalidAmount)
    } else if k_last > 0 && reserve0 * reserve1 > i128::MAX {
        Err(RaumFiPairError::Overflow)
    } else {
        let fee_liq = spec_fee_liquidity(k_last, reserve0, reserve1, supply);
        if supply + fee_liq > i128::MAX {
            Err(RaumFiPairError::PairTokenError)
        } else {
            let supply1 = supply + fee_liq;
            if supply1 == 0 {
                if amount0 * amount1 > i128::MAX {
                    Err(RaumFiPairError::Overflow)
                } else {
                    let liquidity = spec_sqrt((amount0 * amount1) as nat) - 1000;
                    if liquidity <= 0 {
                        Err(RaumFiPairError::InsufficientLiquidityMinted)
                    } else if balance0 * balance1 > i128::MAX {
                        Err(RaumFiPairError::Overflow)
                    } else {
                        Ok((liquidity, fee_liq, true))
                    }
                }
            } else {
                if amount0 * supply1 > i128::MAX {
                    Err(RaumFiPairError::Overflow)
                } else if reserve0 == 0 {
                    Err(RaumFiPairError::Overflow)
                } else if amount1 * supply1 > i128::MAX {
                    Err(RaumFiPairError::Overflow)
                } else if reserve1 == 0 {
                    Err(RaumFiPairError::Overflow)
                } else {
                    let liquidity = vstd::math::min(
                        amount0 * supply1 / reserve0,
                        amount1 * supply1 / reserve1,
                    );
                    if liquidity <= 0 {
                        Err(RaumFiPairError::InsufficientLiquidityMinted)
                    } else if supply1 + liquidity > i128::MAX {
                        Err(RaumFiPairError::PairTokenError)
                    } else if balance0 * balance1 > i128::MAX {
                        Err(RaumFiPairError::Overflow)
                    } else {
                        Ok((liquidity, fee_liq, false))
                    }
                }
            }
        }
    }
}

/// The burn decision for a pool whose own share balance is `liquidity`:
/// either the two asset amounts owed for the shares beyond the locked
/// floor, or the exact error.
pub open spec fn spec_burn_outcome(
    unlocked: bool,
    liquidity: int,
    supply: int,
    balance0: int,
    balance1: int,
) -> Result<(int, int), RaumFiPairError> {
    let userbalance = liquidity - 1000;
    if !unlocked {
        Err(RaumFiPairError::Locked)
    } else if balance0 * userbalance > i128::MAX || balance0 * userbalance < i128::MIN {
        Err(RaumFiPairError::Overflow)
    } else if supply == 0 {
        Err(RaumFiPairError::Overflow)
    } else if balance1 * userbalance > i128::MAX || balance1 * userbalance < i128::MIN {
        Err(RaumFiPairError::Overflow)
    } else if userbalance < 0 {
        Err(RaumFiPairError::InsufficientLiquidityBurned)
    } else {
        let amount0 = balance0 * userbalance / supply;
        let amount1 = balance1 * userbalance / supply;
        if amount0 <= 0 || amount1 <= 0 {
            Err(RaumFiPairError::InsufficientLiquidityBurned)
        } else {
            Ok((amount0, amount1))
        }
    }
}

/// The state of one exchange pair.
pub struct RaumFiPair {
    /// The pair's own account identity on the host ledger.
    pub address: u64,
    pub initialized: bool,
    pub factory: u64,
    pub token0: u64,
    pub token1: u64,
    pub reserve0: i128,
    pub reserve1: i128,
    /// Product of the reserves at the last fee-relevant liquidity event;
    /// zero while unset.
    pub k_last: i128,
    /// The reentrancy flag: clear while an operation (and the host calls it
    /// makes) is in flight.
    pub unlocked: bool,
    /// The pool-share ledger.
    pub token: PairTokenStorage,
}

impl RaumFiPair {
    /// The pair invariant: a well-formed share ledger, non-negative reserves
    /// and recorded product, and canonically ordered assets once initialized.
    pub open spec fn wf(self) -> bool {
        &&& self.token.wf()
        &&& self.reserve0 >= 0
        &&& self.reserve1 >= 0
        &&& self.k_last >= 0
        &&& (self.initialized ==> self.token0 < self.token1)
    }

    /// Everything but the reserves and the recorded product is unchanged.
    pub open spec fn same_identity(self, other: RaumFiPair) -> bool {
        &&& self.address == other.address
        &&& self.initialized == other.initialized
        &&& self.factory == other.factory
        &&& self.token0 == other.token0
        &&& self.token1 == other.token1
        &&& self.unlocked == other.unlocked
    }

    /// A fresh, uninitialized pair at the given host address.
    pub fn new(address: u64) -> (r: RaumFiPair)
        ensures
            r.wf(),
            r.address == address,
            !r.initialized,
            r.reserve0 == 0,
            r.reserve1 == 0,
            r.k_last == 0,
            r.unlocked,
            r.token.total_supply == 0,
            forall|h: u64| spec_balance_of(r.token.balances@, h) == 0,
    {
        RaumFiPair {
            address,
            initialized: false,
            factory: 0,
            token0: 0,
            token1: 0,
            reserve0: 0,
            reserve1: 0,
            k_last: 0,
            unlocked: true,
            token: PairTokenStorage::new(),
        }
    }

    /// One-time setup with the two canonically ordered assets and the
    /// registry that deployed the pair. Sorting is the deployer's duty.
    pub fn initialize(&mut self, token0: u64, token1: u64, factory: u64) -> (r: Result<
        (),
        RaumFiPairError,
    >)
        requires
            old(self).wf(),
            token0 < token1,
        ensures
            old(self).initialized ==> r == Err::<(), _>(RaumFiPairError::AlreadyInitialized)
                && *final(self) == *old(self),
            !old(self).initialized ==> {
                &&& r == Ok::<_, RaumFiPairError>(())
                &&& final(self).wf()
                &&& final(self).initialized
                &&& final(self).token0 == token0
                &&& final(self).token1 == token1
                &&& final(self).factory == factory
                &&& final(self).unlocked
                &&& final(self).address == old(self).address
                &&& final(self).reserve0 == old(self).reserve0
                &&& final(self).reserve1 == old(self).reserve1
                &&& final(self).k_last == old(self).k_last
                &&& final(self).token == old(self).token
            },
    {
        if self.initialized {
            return Err(RaumFiPairError::AlreadyInitialized);
        }
        self.initialized = true;
        self.token0 = token0;
        self.token1 = token1;
        self.factory = factory;
        self.unlocked = true;
        Ok(())
    }

    /// The current reserves, in canonical asset order.
    pub fn get_reserves(&self) -> (r: (i128, i128))
        ensures
            r.0 == self.reserve0,
            r.1 == self.reserve1,
    {
        (self.reserve0, self.reserve1)
    }

    /// Fail when an operation already holds the reentrancy guard.
    pub fn check_locked(&self) -> (r: Result<(), RaumFiPairError>)
        ensures
            self.unlocked ==> r == Ok::<_, RaumFiPairError>(()),
            !self.unlocked ==> r == Err::<(), _>(RaumFiPairError::Locked),
    {
        if !self.unlocked {
            return Err(RaumFiPairError::Locked);
        }
        Ok(())
    }

    /// Take the reentrancy guard for the span of host calls the caller is
    /// about to make; a reentrant taker fails with `Locked`.
    pub fn acquire_guard(&mut self) -> (r: Result<(), RaumFiPairError>)
        requires
            old(self).wf(),
        ensures
            !old(self).unlocked ==> r == Err::<(), _>(RaumFiPairError::Locked) && *final(self)
                == *old(self),
            old(self).unlocked ==> r == Ok::<_, RaumFiPairError>(()) && *final(self) == (RaumFiPair {
                unlocked: false,
                ..*old(self)
            }),
            final(self).wf(),
    {
        if !self.unlocked {
            return Err(RaumFiPairError::Locked);
        }
        self.unlocked = false;
        Ok(())
    }

    /// Release the reentrancy guard. The release is unconditional: a scoped
    /// guard lets go on every exit path, including the failing ones, so the
    /// pair can never end up stuck locked.
    pub fn release_guard(&mut self)
        requires
            old(self).wf(),
        ensures
            *final(self) == (RaumFiPair { unlocked: true, ..*old(self) }),
            final(self).wf(),
    {
        self.unlocked = true;
    }

    /// The protocol-fee share computation, with every failure typed.
    fn compute_fee_liquidity(
        k_last: i128,
        reserve0: i128,
        reserve1: i128,
        total_supply: i128,
    ) -> (r: Result<i128, RaumFiPairError>)
        requires
            k_last >= 0,
            total_supply >= 0,
        ensures
            k_last == 0 ==> r == Ok::<i128, RaumFiPairError>(0),
            k_last > 0 && reserve0 >= 0 && reserve1 >= 0 ==> r == (if reserve0 * reserve1
                > i128::MAX {
                Err::<i128, _>(RaumFiPairError::Overflow)
            } else {
                Ok(
                    spec_fee_liquidity(
                        k_last as int,
                        reserve0 as int,
                        reserve1 as int,
                        total_supply as int,
                    ) as i128,
                )
            }),
            r is Ok ==> 0 <= r->Ok_0,
    {
        if k_last == 0 {
            return Ok(0);
        }
        let k = match reserve0.checked_mul(reserve1) {
            Some(k) => k,
            None => {
                return Err(RaumFiPairError::Overflow);
            },
        };
        if k < 0 {
            return Err(RaumFiPairError::Overflow);
        }
        let root_k = sqrt_i128(k);
        let root_k_last = sqrt_i128(k_last);
        proof {
            crate::library::lemma_sqrt_bounds(k as nat);
            crate::library::lemma_sqrt_bounds(k_last as nat);
            assert(root_k < 0x20000000000000000) by (nonlinear_arith)
                requires
                    root_k >= 0,
                    root_k * root_k <= k,
                    k <= i128::MAX,
            ;
            assert(root_k_last < 0x20000000000000000) by (nonlinear_arith)
                requires
                    root_k_last >= 0,
                    root_k_last * root_k_last <= k_last,
                    k_last <= i128::MAX,
            ;
        }
        if root_k > root_k_last {
            let difference = root_k - root_k_last;
            let numerator = match difference.checked_mul(total_supply) {
                Some(n) => n,
                None => i128::MAX,
            };
            let denominator = root_k * 5 + root_k_last;
            let liquidity = match numerator.checked_div(denominator) {
                Some(q) => q,
                None => {
                    proof {
                        assert(false);
                    }
                    return Err(RaumFiPairError::Overflow);
                },
            };
            proof {
                assert(0 <= (numerator as int) / (denominator as int)) by (nonlinear_arith)
                    requires
                        numerator >= 0,
                        denominator > 0,
                ;
            }
            Ok(liquidity)
        } else {
            Ok(0)
        }
    }

    /// Accrue the protocol fee before a liquidity event: when the reserves'
    /// product has outgrown the last recorded product, mint the growth share
    /// to the registry's fee recipient. Always reports fees as enabled.
    pub fn mint_fee(&mut self, reserve0: i128, reserve1: i128, fee_to: u64) -> (r: Result<
        bool,
        RaumFiPairError,
    >)
        requires
            old(self).wf(),
        ensures
            ({
                let liq = spec_fee_liquidity(
                    old(self).k_last as int,
                    reserve0 as int,
                    reserve1 as int,
                    old(self).token.total_supply as int,
                );
                &&& (old(self).k_last == 0 ==> r == Ok::<bool, RaumFiPairError>(true) && *final(self) == *old(
                    self,
                ))
                &&& (old(self).k_last > 0 && reserve0 >= 0 && reserve1 >= 0 ==> (if reserve0
                    * reserve1 > i128::MAX {
                    r == Err::<bool, _>(RaumFiPairError::Overflow) && *final(self) == *old(self)
                } else if liq > 0 && old(self).token.total_supply + liq > i128::MAX {
                    r == Err::<bool, _>(RaumFiPairError::PairTokenError) && *final(self) == *old(
                        self,
                    )
                } else {
                    &&& r == Ok::<bool, RaumFiPairError>(true)
                    &&& final(self).wf()
                    &&& final(self).same_identity(*old(self))
                    &&& final(self).reserve0 == old(self).reserve0
                    &&& final(self).reserve1 == old(self).reserve1
                    &&& final(self).k_last == old(self).k_last
                    &&& final(self).token.total_supply == old(self).token.total_supply + liq
                    &&& forall|h: u64|
                        spec_balance_of(final(self).token.balances@, h) == spec_balance_of(
                            old(self).token.balances@,
                            h,
                        ) + (if h == fee_to {
                            liq
                        } else {
                            0
                        })
                    &&& final(self).token.allowances@ == old(self).token.allowances@
                }))
                &&& (r is Err ==> *final(self) == *old(self))
                &&& (r is Ok ==> final(self).wf())
            }),
    {
        let total_supply = self.token.get_total_supply();
        proof {
            crate::pair_token::lemma_balance_le_sum(self.token.balances@, 0);
        }
        let liquidity = match Self::compute_fee_liquidity(
            self.k_last,
            reserve0,
            reserve1,
            total_supply,
        ) {
            Ok(l) => l,
            Err(e) => {
                return Err(e);
            },
        };
        if liquidity != 0 {
            match PairToken::mint_token(&mut self.token, fee_to, liquidity) {
                Ok(_) => {},
                Err(_) => {
                    return Err(RaumFiPairError::PairTokenError);
                },
            }
        }
        Ok(true)
    }

    /// The swap decision: either the reserves the pair will record after a
    /// valid swap (the post-transfer balances), or the exact error.
    pub open spec fn spec_swap(
        self,
        amount0_out: int,
        amount1_out: int,
        to: u64,
        balance0: int,
        balance1: int,
    ) -> Result<(int, int), RaumFiPairError> {
        if !self.unlocked {
            Err(RaumFiPairError::Locked)
        } else if amount0_out == 0 && amount1_out == 0 {
            Err(RaumFiPairError::InsufficientOutputAmount)
        } else if amount0_out < 0 || amount1_out < 0 {
            Err(RaumFiPairError::InsufficientOutputAmount)
        } else if amount0_out > self.reserve0 || amount1_out > self.reserve1 {
            Err(RaumFiPairError::InsufficientLiquidity)
        } else if to == self.token0 || to == self.token1 {
            Err(RaumFiPairError::InvalidTo)
        } else {
            let amount0_in = if balance0 > self.reserve0 - amount0_out {
                balance0 - (self.reserve0 - amount0_out)
            } else {
                0
            };
            let amount1_in = if balance1 > self.reserve1 - amount1_out {
                balance1 - (self.reserve1 - amount1_out)
            } else {
                0
            };
            if amount0_in == 0 && amount1_in == 0 {
                Err(RaumFiPairError::InsufficientInputAmount)
            } else if balance0 * 1000 > i128::MAX || balance1 * 1000 > i128::MAX {
                Err(RaumFiPairError::Overflow)
            } else {
                let adjusted0 = balance0 * 1000 - amount0_in * 3;
                let adjusted1 = balance1 * 1000 - amount1_in * 3;
                if adjusted0 * adjusted1 > i128::MAX || adjusted0 * adjusted1 < i128::MIN {
                    Err(RaumFiPairError::Overflow)
                } else if self.reserve0 * self.reserve1 > i128::MAX {
                    Err(RaumFiPairError::Overflow)
                } else if self.reserve0 * self.reserve1 * 1000000 > i128::MAX {
                    Err(RaumFiPairError::Overflow)
                } else if adjusted0 * adjusted1 < self.reserve0 * self.reserve1 * 1000000 {
                    Err(RaumFiPairError::K)
                } else {
                    Ok((balance0, balance1))
                }
            }
        }
    }

    /// Swap: pay out the requested amounts, measure what came in from the
    /// post-transfer balances, enforce the fee-adjusted constant-product
    /// check, and record the new reserves. Fails atomically.
    pub fn swap(
        &mut self,
        amount0_out: i128,
        amount1_out: i128,
        to: u64,
        balance0: i128,
        balance1: i128,
    ) -> (r: Result<(), RaumFiPairError>)
        requires
            old(self).wf(),
            balance0 >= 0,
            balance1 >= 0,
        ensures
            final(self).wf(),
            ({
                let step = old(self).spec_swap(
                    amount0_out as int,
                    amount1_out as int,
                    to,
                    balance0 as int,
                    balance1 as int,
                );
                match step {
                    Ok(_) => r == Ok::<(), RaumFiPairError>(()) && *final(self) == (RaumFiPair {
                        reserve0: balance0,
                        reserve1: balance1,
                        ..*old(self)
                    }),
                    Err(e) => r == Err::<(), RaumFiPairError>(e) && *final(self) == *old(self),
                }
            }),
    {
        if !self.unlocked {
            return Err(RaumFiPairError::Locked);
        }
        if amount0_out == 0 && amount1_out == 0 {
            return Err(RaumFiPairError::InsufficientOutputAmount);
        }
        if amount0_out < 0 || amount1_out < 0 {
            return Err(RaumFiPairError::InsufficientOutputAmount);
        }
        if amount0_out > self.reserve0 || amount1_out > self.reserve1 {
            return Err(RaumFiPairError::InsufficientLiquidity);
        }
        if to == self.token0 || to == self.token1 {
            return Err(RaumFiPairError::InvalidTo);
        }
        let amount0_in = if balance0 > self.reserve0 - amount0_out {
            balance0 - (self.reserve0 - amount0_out)
        } else {
            0
        };
        let amount1_in = if balance1 > self.reserve1 - amount1_out {
            balance1 - (self.reserve1 - amount1_out)
        } else {
            0
        };
        if amount0_in == 0 && amount1_in == 0 {
            return Err(RaumFiPairError::InsufficientInputAmount);
        }
        let scaled0 = match balance0.checked_mul(1000) {
            Some(s) => s,
            None => {
                return Err(RaumFiPairError::Overflow);
            },
        };
        let scaled1 = match balance1.checked_mul(1000) {
            Some(s) => s,
            None => {
                return Err(RaumFiPairError::Overflow);
            },
        };
        proof {
            assert(3 * amount0_in <= 1000 * balance0 && 3 * amount1_in <= 1000 * balance1)
                by (nonlinear_arith)
                requires
                    0 <= amount0_in <= balance0,
                    0 <= amount1_in <= balance1,
            ;
        }
        let adjusted0 = scaled0 - amount0_in * 3;
        let adjusted1 = scaled1 - amount1_in * 3;
        let adjusted_product = match adjusted0.checked_mul(adjusted1) {
            Some(p) => p,
            None => {
                return Err(RaumFiPairError::Overflow);
            },
        };
        let k = match self.reserve0.checked_mul(self.reserve1) {
            Some(k) => k,
            None => {
                return Err(RaumFiPairError::Overflow);
            },
        };
        let k_scaled = match k.checked_mul(1000000) {
            Some(k) => k,
            None => {
                return Err(RaumFiPairError::Overflow);
            },
        };
        if adjusted_product < k_scaled {
            return Err(RaumFiPairError::K);
        }
        self.reserve0 = balance0;
        self.reserve1 = balance1;
        Ok(())
    }

    /// The mint decision on this pair's fields; see [`spec_mint_outcome`].
    pub open spec fn spec_mint(self, balance0: int, balance1: int) -> Result<
        (int, int, bool),
        RaumFiPairError,
    > {
        spec_mint_outcome(
            self.unlocked,
            self.reserve0 as int,
            self.reserve1 as int,
            self.k_last as int,
            self.token.total_supply as int,
            balance0,
            balance1,
        )
    }

    /// Mint pool shares for a deposit. The surplus of the pair's current
    /// holdings (`balance0`, `balance1`) over the recorded reserves is the
    /// deposited amount. Accrues the protocol fee to `fee_to` first; the
    /// very first mint locks `MINIMUM_LIQUIDITY` shares at the pair's own
    /// address; the product of the new reserves is recorded for the next
    /// accrual. Fails atomically.
    pub fn mint(&mut self, to: u64, balance0: i128, balance1: i128, fee_to: u64) -> (r: Result<
        i128,
        RaumFiPairError,
    >)
        requires
            old(self).wf(),
            balance0 >= 0,
            balance1 >= 0,
        ensures
            final(self).wf(),
            ({
                let step = old(self).spec_mint(balance0 as int, balance1 as int);
                match step {
                    Ok((liquidity, fee_liq, bootstrap)) => {
                        &&& r == Ok::<i128, RaumFiPairError>(liquidity as i128)
                        &&& final(self).same_identity(*old(self))
                        &&& final(self).reserve0 == balance0
                        &&& final(self).reserve1 == balance1
                        &&& final(self).k_last == balance0 * balance1
                        &&& final(self).token.total_supply == old(self).token.total_supply
                            + fee_liq + liquidity + (if bootstrap {
                            1000int
                        } else {
                            0int
                        })
                        &&& (forall|h: u64|
                            spec_balance_of(final(self).token.balances@, h) == spec_balance_of(
                                old(self).token.balances@,
                                h,
                            ) + (if h == fee_to {
                                fee_liq
                            } else {
                                0int
                            }) + (if bootstrap && h == old(self).address {
                                1000int
                            } else {
                                0int
                            }) + (if h == to {
                                liquidity
                            } else {
                                0int
                            }))
                        &&& final(self).token.allowances@ == old(self).token.allowances@
                    },
                    Err(e) => r == Err::<i128, RaumFiPairError>(e) && *final(self) == *old(self),
                }
            }),
    {
        if !self.unlocked {
            return Err(RaumFiPairError::Locked);
        }
        let amount0 = balance0 - self.reserve0;
        let amount1 = balance1 - self.reserve1;
        if amount0 <= 0 {
            return Err(RaumFiPairError::InvalidAmount);
        }
        if amount1 <= 0 {
            return Err(RaumFiPairError::InvalidAmount);
        }
        let total_supply = self.token.get_total_supply();
        proof {
            crate::pair_token::lemma_balance_le_sum(self.token.balances@, 0);
        }
        let fee_liq = match Self::compute_fee_liquidity(
            self.k_last,
            self.reserve0,
            self.reserve1,
            total_supply,
        ) {
            Ok(l) => l,
            Err(e) => {
                return Err(e);
            },
        };
        let supply1 = match total_supply.checked_add(fee_liq) {
            Some(s) => s,
            None => {
                return Err(RaumFiPairError::PairTokenError);
            },
        };
        let bootstrap = supply1 == 0;
        let liquidity: i128;
        if bootstrap {
            let product = match amount0.checked_mul(amount1) {
                Some(p) => p,
                None => {
                    return Err(RaumFiPairError::Overflow);
                },
            };
            let root = sqrt_i128(product);
            proof {
                crate::library::lemma_sqrt_bounds(product as nat);
                assert(product > 0) by (nonlinear_arith)
                    requires
                        product == amount0 * amount1,
                        amount0 > 0,
                        amount1 > 0,
                ;
                assert(root <= product) by (nonlinear_arith)
                    requires
                        root >= 0,
                        root * root <= product,
                        product > 0,
                ;
            }
            liquidity = root - 1000;
        } else {
            let scaled0 = match amount0.checked_mul(supply1) {
                Some(p) => p,
                None => {
                    return Err(RaumFiPairError::Overflow);
                },
            };
            let liquidity0 = match scaled0.checked_div(self.reserve0) {
                Some(q) => q,
                None => {
                    return Err(RaumFiPairError::Overflow);
                },
            };
            let scaled1 = match amount1.checked_mul(supply1) {
                Some(p) => p,
                None => {
                    return Err(RaumFiPairError::Overflow);
                },
            };
            let liquidity1 = match scaled1.checked_div(self.reserve1) {
                Some(q) => q,
                None => {
                    return Err(RaumFiPairError::Overflow);
                },
            };
            proof {
                assert(0 <= (scaled0 as int) / (self.reserve0 as int)) by (nonlinear_arith)
                    requires
                        scaled0 >= 0,
                        self.reserve0 > 0,
                ;
                assert(0 <= (scaled1 as int) / (self.reserve1 as int)) by (nonlinear_arith)
                    requires
                        scaled1 >= 0,
                        self.reserve1 > 0,
                ;
            }
            liquidity = if liquidity0 < liquidity1 {
                liquidity0
            } else {
                liquidity1
            };
        }
        if liquidity <= 0 {
            return Err(RaumFiPairError::InsufficientLiquidityMinted);
        }
        if !bootstrap {
            match supply1.checked_add(liquidity) {
                Some(_) => {},
                None => {
                    return Err(RaumFiPairError::PairTokenError);
                },
            }
        }
        let k_product = match balance0.checked_mul(balance1) {
            Some(k) => k,
            None => {
                return Err(RaumFiPairError::Overflow);
            },
        };
        if fee_liq > 0 {
            match PairToken::mint_token(&mut self.token, fee_to, fee_liq) {
                Ok(_) => {},
                Err(_) => {
                    proof {
                        assert(false);
                    }
                    return Err(RaumFiPairError::PairTokenError);
                },
            }
        }
        if bootstrap {
            match PairToken::mint_token(&mut self.token, self.address, crate::MINIMUM_LIQUIDITY) {
                Ok(_) => {},
                Err(_) => {
                    proof {
                        assert(false);
                    }
                    return Err(RaumFiPairError::PairTokenError);
                },
            }
        }
        match PairToken::mint_token(&mut self.token, to, liquidity) {
            Ok(_) => {},
            Err(_) => {
                proof {
                    assert(false);
                }
                return Err(RaumFiPairError::PairTokenError);
            },
        }
        self.reserve0 = balance0;
        self.reserve1 = balance1;
        self.k_last = k_product;
        Ok(liquidity)
    }

    /// The burn decision on this pair's fields; see [`spec_burn_outcome`].
    pub open spec fn spec_burn(self, balance0: int, balance1: int) -> Result<
        (int, int),
        RaumFiPairError,
    > {
        spec_burn_outcome(
            self.unlocked,
            spec_balance_of(self.token.balances@, self.address),
            self.token.total_supply as int,
            balance0,
            balance1,
        )
    }

    /// Burn the pool shares the pair itself holds (transferred in by the
    /// caller) beyond the locked floor, and pay out both assets pro rata.
    /// The floor itself stays at the pair's address, unredeemed, so the
    /// supply never returns to zero. The new reserves are the holdings left
    /// after the payouts. Fails atomically.
    pub fn burn(&mut self, to: u64, balance0: i128, balance1: i128) -> (r: Result<
        (i128, i128),
        RaumFiPairError,
    >)
        requires
            old(self).wf(),
            balance0 >= 0,
            balance1 >= 0,
        ensures
            final(self).wf(),
            ({
                let step = old(self).spec_burn(balance0 as int, balance1 as int);
                let liquidity = spec_balance_of(old(self).token.balances@, old(self).address);
                match step {
                    Ok((amount0, amount1)) => {
                        &&& r == Ok::<(i128, i128), RaumFiPairError>(
                            (amount0 as i128, amount1 as i128),
                        )
                        &&& final(self).same_identity(*old(self))
                        &&& final(self).reserve0 == balance0 - amount0
                        &&& final(self).reserve1 == balance1 - amount1
                        &&& final(self).k_last == old(self).k_last
                        &&& final(self).token.total_supply == old(self).token.total_supply - (
                        liquidity - 1000)
                        &&& (forall|h: u64|
                            spec_balance_of(final(self).token.balances@, h) == spec_balance_of(
                                old(self).token.balances@,
                                h,
                            ) - (if h == old(self).address {
                                liquidity - 1000
                            } else {
                                0int
                            }))
                        &&& final(self).token.allowances@ == old(self).token.allowances@
                    },
                    Err(e) => r == Err::<(i128, i128), RaumFiPairError>(e) && *final(self) == *old(
                        self,
                    ),
                }
            }),
    {
        if !self.unlocked {
            return Err(RaumFiPairError::Locked);
        }
        let liquidity = self.token.get_balance(self.address);
        proof {
            crate::pair_token::lemma_balance_le_sum(self.token.balances@, self.address);
        }
        let userbalance = liquidity - 1000;
        let total_supply = self.token.get_total_supply();
        let scaled0 = match balance0.checked_mul(userbalance) {
            Some(p) => p,
            None => {
                return Err(RaumFiPairError::Overflow);
            },
        };
        let amount0 = match scaled0.checked_div(total_supply) {
            Some(q) => q,
            None => {
                return Err(RaumFiPairError::Overflow);
            },
        };
        let scaled1 = match balance1.checked_mul(userbalance) {
            Some(p) => p,
            None => {
                return Err(RaumFiPairError::Overflow);
            },
        };
        let amount1 = match scaled1.checked_div(total_supply) {
            Some(q) => q,
            None => {
                return Err(RaumFiPairError::Overflow);
            },
        };
        if amount0 <= 0 || amount1 <= 0 {
            return Err(RaumFiPairError::InsufficientLiquidityBurned);
        }
        proof {
            if userbalance < 0 {
                assert(scaled0 <= 0) by (nonlinear_arith)
                    requires
                        scaled0 == balance0 * userbalance,
                        balance0 >= 0,
                        userbalance < 0,
                ;
                if scaled0 < 0 {
                    assert(((scaled0 * -1) as int) / (total_supply as int) >= 0)
                        by (nonlinear_arith)
                        requires
                            scaled0 < 0,
                            total_supply > 0,
                    ;
                }
                assert(false);
            }
            assert(userbalance >= 0);
            assert(amount0 == balance0 * userbalance / (total_supply as int) && 0 <= amount0)
                by (nonlinear_arith)
                requires
                    scaled0 == balance0 * userbalance,
                    amount0 == (scaled0 as int) / (total_supply as int),
                    balance0 >= 0,
                    userbalance >= 0,
                    total_supply > 0,
            ;
            assert(amount1 == balance1 * userbalance / (total_supply as int) && 0 <= amount1)
                by (nonlinear_arith)
                requires
                    scaled1 == balance1 * userbalance,
                    amount1 == (scaled1 as int) / (total_supply as int),
                    balance1 >= 0,
                    userbalance >= 0,
                    total_supply > 0,
            ;
            assert(amount0 <= balance0) by (nonlinear_arith)
                requires
                    amount0 == balance0 * userbalance / (total_supply as int),
                    0 <= userbalance < total_supply,
                    balance0 >= 0,
                    total_supply > 0,
            ;
            assert(amount1 <= balance1) by (nonlinear_arith)
                requires
                    amount1 == balance1 * userbalance / (total_supply as int),
                    0 <= userbalance < total_supply,
                    balance1 >= 0,
                    total_supply > 0,
            ;
        }
        match PairToken::burn_token(&mut self.token, self.address, userbalance) {
            Ok(_) => {},
            Err(_) => {
                proof {
                    assert(false);
                }
                return Err(RaumFiPairError::PairTokenError);
            },
        }
        self.reserve0 = balance0 - amount0;
        self.reserve1 = balance1 - amount1;
        Ok((amount0, amount1))
    }

    /// Check a swap without changing anything: whether paying out the
    /// requested amounts against the given post-transfer balances would
    /// pass, or the error the swap would fail with.
    pub fn swap_preview(
        &self,
        amount0_out: i128,
        amount1_out: i128,
        to: u64,
        balance0: i128,
        balance1: i128,
    ) -> (r: Result<(), RaumFiPairError>)
        requires
            self.wf(),
            balance0 >= 0,
            balance1 >= 0,
        ensures
            ({
                let step = self.spec_swap(
                    amount0_out as int,
                    amount1_out as int,
                    to,
                    balance0 as int,
                    balance1 as int,
                );
                match step {
                    Ok(_) => r == Ok::<(), RaumFiPairError>(()),
                    Err(e) => r == Err::<(), RaumFiPairError>(e),
                }
            }),
    {
        if !self.unlocked {
            return Err(RaumFiPairError::Locked);
        }
        if amount0_out == 0 && amount1_out == 0 {
            return Err(RaumFiPairError::InsufficientOutputAmount);
        }
        if amount0_out < 0 || amount1_out < 0 {
            return Err(RaumFiPairError::InsufficientOutputAmount);
        }
        if amount0_out > self.reserve0 || amount1_out > self.reserve1 {
            return Err(RaumFiPairError::InsufficientLiquidity);
        }
        if to == self.token0 || to == self.token1 {
            return Err(RaumFiPairError::InvalidTo);
        }
        let amount0_in = if balance0 > self.reserve0 - amount0_out {
            balance0 - (self.reserve0 - amount0_out)
        } else {
            0
        };
        let amount1_in = if balance1 > self.reserve1 - amount1_out {
            balance1 - (self.reserve1 - amount1_out)
        } else {
            0
        };
        if amount0_in == 0 && amount1_in == 0 {
            return Err(RaumFiPairError::InsufficientInputAmount);
        }
        let scaled0 = match balance0.checked_mul(1000) {
            Some(s) => s,
            None => {
                return Err(RaumFiPairError::Overflow);
            },
        };
        let scaled1 = match balance1.checked_mul(1000) {
            Some(s) => s,
            None => {
                return Err(RaumFiPairError::Overflow);
            },
        };
        proof {
            assert(3 * amount0_in <= 1000 * balance0 && 3 * amount1_in <= 1000 * balance1)
                by (nonlinear_arith)
                requires
                    0 <= amount0_in <= balance0,
                    0 <= amount1_in <= balance1,
            ;
        }
        let adjusted0 = scaled0 - amount0_in * 3;
        let adjusted1 = scaled1 - amount1_in * 3;
        let adjusted_product = match adjusted0.checked_mul(adjusted1) {
            Some(p) => p,
            None => {
                return Err(RaumFiPairError::Overflow);
            },
        };
        let k = match self.reserve0.checked_mul(self.reserve1) {
            Some(k) => k,
            None => {
                return Err(RaumFiPairError::Overflow);
            },
        };
        let k_scaled = match k.checked_mul(1000000) {
            Some(k) => k,
            None => {
                return Err(RaumFiPairError::Overflow);
            },
        };
        if adjusted_product < k_scaled {
            return Err(RaumFiPairError::K);
        }
        Ok(())
    }

    /// Quote a mint without changing anything: the shares the deposit shown
    /// by the given balances would earn, or the error the mint would fail
    /// with.
    pub fn mint_preview(&self, balance0: i128, balance1: i128) -> (r: Result<
        i128,
        RaumFiPairError,
    >)
        requires
            self.wf(),
            balance0 >= 0,
            balance1 >= 0,
        ensures
            ({
                let step = self.spec_mint(balance0 as int, balance1 as int);
                match step {
                    Ok((liquidity, fee_liq, bootstrap)) => r == Ok::<i128, RaumFiPairError>(
                        liquidity as i128,
                    ),
                    Err(e) => r == Err::<i128, RaumFiPairError>(e),
                }
            }),
    {
        if !self.unlocked {
            return Err(RaumFiPairError::Locked);
        }
        let amount0 = balance0 - self.reserve0;
        let amount1 = balance1 - self.reserve1;
        if amount0 <= 0 {
            return Err(RaumFiPairError::InvalidAmount);
        }
        if amount1 <= 0 {
            return Err(RaumFiPairError::InvalidAmount);
        }
        let total_supply = self.token.get_total_supply();
        proof {
            crate::pair_token::lemma_balance_le_sum(self.token.balances@, 0);
        }
        let fee_liq = match Self::compute_fee_liquidity(
            self.k_last,
            self.reserve0,
            self.reserve1,
            total_supply,
        ) {
            Ok(l) => l,
            Err(e) => {
                return Err(e);
            },
        };
        let supply1 = match total_supply.checked_add(fee_liq) {
            Some(s) => s,
            None => {
                return Err(RaumFiPairError::PairTokenError);
            },
        };
        let bootstrap = supply1 == 0;
        let liquidity: i128;
        if bootstrap {
            let product = match amount0.checked_mul(amount1) {
                Some(p) => p,
                None => {
                    return Err(RaumFiPairError::Overflow);
                },
            };
            let root = sqrt_i128(product);
            liquidity = root - 1000;
        } else {
            let scaled0 = match amount0.checked_mul(supply1) {
                Some(p) => p,
                None => {
                    return Err(RaumFiPairError::Overflow);
                },
            };
            let liquidity0 = match scaled0.checked_div(self.reserve0) {
                Some(q) => q,
                None => {
                    return Err(RaumFiPairError::Overflow);
                },
            };
            let scaled1 = match amount1.checked_mul(supply1) {
                Some(p) => p,
                None => {
                    return Err(RaumFiPairError::Overflow);
                },
            };
            let liquidity1 = match scaled1.checked_div(self.reserve1) {
                Some(q) => q,
                None => {
                    return Err(RaumFiPairError::Overflow);
                },
            };
            liquidity = if liquidity0 < liquidity1 {
                liquidity0
            } else {
                liquidity1
            };
        }
        if liquidity <= 0 {
            return Err(RaumFiPairError::InsufficientLiquidityMinted);
        }
        if !bootstrap {
            match supply1.checked_add(liquidity) {
                Some(_) => {},
                None => {
                    return Err(RaumFiPairError::PairTokenError);
                },
            }
        }
        match balance0.checked_mul(balance1) {
            Some(_) => {},
            None => {
                return Err(RaumFiPairError::Overflow);
            },
        }
        Ok(liquidity)
    }

    /// Quote a burn without changing anything: the asset amounts the shares
    /// the pair holds would redeem, or the error the burn would fail with.
    pub fn burn_preview(&self, balance0: i128, balance1: i128) -> (r: Result<
        (i128, i128),
        RaumFiPairError,
    >)
        requires
            self.wf(),
            balance0 >= 0,
            balance1 >= 0,
        ensures
            ({
                let step = self.spec_burn(balance0 as int, balance1 as int);
                match step {
                    Ok((amount0, amount1)) => r == Ok::<(i128, i128), RaumFiPairError>(
                        (amount0 as i128, amount1 as i128),
                    ),
                    Err(e) => r == Err::<(i128, i128), RaumFiPairError>(e),
                }
            }),
    {
        if !self.unlocked {
            return Err(RaumFiPairError::Locked);
        }
        let liquidity = self.token.get_balance(self.address);
        proof {
            crate::pair_token::lemma_balance_le_sum(self.token.balances@, self.address);
        }
        let userbalance = liquidity - 1000;
        let total_supply = self.token.get_total_supply();
        let scaled0 = match balance0.checked_mul(userbalance) {
            Some(p) => p,
            None => {
                return Err(RaumFiPairError::Overflow);
            },
        };
        let amount0 = match scaled0.checked_div(total_supply) {
            Some(q) => q,
            None => {
                return Err(RaumFiPairError::Overflow);
            },
        };
        let scaled1 = match balance1.checked_mul(userbalance) {
            Some(p) => p,
            None => {
                return Err(RaumFiPairError::Overflow);
            },
        };
        let amount1 = match scaled1.checked_div(total_supply) {
            Some(q) => q,
            None => {
                return Err(RaumFiPairError::Overflow);
            },
        };
        if amount0 <= 0 || amount1 <= 0 {
            return Err(RaumFiPairError::InsufficientLiquidityBurned);
        }
        proof {
            if userbalance < 0 {
                assert(scaled0 <= 0) by (nonlinear_arith)
                    requires
                        scaled0 == balance0 * userbalance,
                        balance0 >= 0,
                        userbalance < 0,
                ;
                if scaled0 < 0 {
                    assert(((scaled0 * -1) as int) / (total_supply as int) >= 0)
                        by (nonlinear_arith)
                        requires
                            scaled0 < 0,
                            total_supply > 0,
                    ;
                }
                assert(false);
            }
        }
        Ok((amount0, amount1))
    }
}

} // verus!
