//! The router: composes pair lookups, pricing and settlement into the
//! user-facing liquidity and swap operations, enforcing deadlines and
//! slippage bounds.
//!
//! The router acts on the registry and on the collection of live pairs,
//! which the host materializes and passes in. Collateral transfers are the
//! host's token contracts' work: the router computes with the balances the
//! pair will hold once the host has performed them, and the recorded
//! reserves equal the pair's holdings whenever the pool is at rest.

use vstd::prelude::*;

use crate::errors::{RaumFiLibraryError, RaumFiPairError, RaumFiRouterError};
use crate::factory::{spec_canonical, spec_find_pair, FactoryContract, PairEntry};
use crate::library::{
    calculate_amount_in, calculate_amount_out, calculate_quote, find_pair_index, get_reserves,
    pairs_wf, spec_calculate_amount_in, spec_calculate_amount_out, spec_get_amounts_in,
    spec_get_amounts_out, spec_get_reserves, spec_lookup_pair,
};
use crate::pair::{spec_mint_outcome, RaumFiPair};
use crate::pair_token::spec_balance_of;

verus! {

/// The registry and the live pairs describe the same world: one pair value
/// per registry record, with the recorded assets and address.
pub open spec fn world_wf(f: FactoryContract, pairs: Seq<RaumFiPair>) -> bool {
    &&& f.wf()
    &&& pairs_wf(pairs)
    &&& pairs.len() == f.pairs@.len()
    &&& forall|i: int|
        0 <= i < pairs.len() ==> {
            &&& (#[trigger] pairs[i]).initialized
            &&& pairs[i].token0 == f.pairs@[i].token0
            &&& pairs[i].token1 == f.pairs@[i].token1
            &&& pairs[i].address == f.pairs@[i].pair
        }
}

/// A pair address found in the registry is recorded at some index.
pub proof fn lemma_find_pair_some_index(s: Seq<PairEntry>, token0: u64, token1: u64)
    requires
        spec_find_pair(s, token0, token1) is Some,
    ensures
        exists|j: int|
            0 <= j < s.len() && (#[trigger] s[j]).token0 == token0 && s[j].token1 == token1
                && s[j].pair == spec_find_pair(s, token0, token1)->Some_0,
    decreases s.len(),
{
    if s.len() == 0 {
    } else if s.last().token0 == token0 && s.last().token1 == token1 {
        assert(s[s.len() - 1] == s.last());
    } else {
        lemma_find_pair_some_index(s.drop_last(), token0, token1);
        let j = choose|j: int|
            0 <= j < s.drop_last().len() && (#[trigger] s.drop_last()[j]).token0 == token0
                && s.drop_last()[j].token1 == token1 && s.drop_last()[j].pair == spec_find_pair(
                s.drop_last(),
                token0,
                token1,
            )->Some_0;
        assert(s[j] == s.drop_last()[j]);
    }
}

/// A sequence of machine integers read as mathematical integers.
pub open spec fn seq_as_int(s: Seq<i128>) -> Seq<int> {
    Seq::new(s.len(), |i: int| s[i] as int)
}

/// The index of the pair serving hop `i` of a path.
pub open spec fn spec_hop_pair_index(s: Seq<RaumFiPair>, path: Seq<u64>, i: int) -> Option<int> {
    let c = spec_canonical(path[i], path[i + 1]);
    spec_lookup_pair(s, c.0, c.1)
}

/// The decision of hop `i` of a settlement: the index of the pair and the
/// balances it will record, or the exact error. Outputs go to the next
/// hop's pair, the last hop's to the final recipient.
pub open spec fn spec_hop_result(
    s: Seq<RaumFiPair>,
    amounts: Seq<int>,
    path: Seq<u64>,
    to_final: u64,
    i: int,
) -> Result<(int, int, int), RaumFiRouterError> {
    let input = path[i];
    let output = path[i + 1];
    let c = spec_canonical(input, output);
    match spec_lookup_pair(s, c.0, c.1) {
        None => Err(RaumFiRouterError::PairDoesNotExist),
        Some(j) => {
            let p = s[j];
            let amount_out = amounts[i + 1];
            let a0out: int = if input == c.0 {
                0
            } else {
                amount_out
            };
            let a1out: int = if input == c.0 {
                amount_out
            } else {
                0
            };
            let to_step: Option<u64> = if i < path.len() - 2 {
                let c2 = spec_canonical(output, path[i + 2]);
                match spec_lookup_pair(s, c2.0, c2.1) {
                    None => None,
                    Some(k) => Some(s[k].address),
                }
            } else {
                Some(to_final)
            };
            match to_step {
                None => Err(RaumFiRouterError::PairDoesNotExist),
                Some(to) => {
                    let b0: int = if input == c.0 {
                        p.reserve0 + amounts[i]
                    } else {
                        p.reserve0 - amount_out
                    };
                    let b1: int = if input == c.0 {
                        p.reserve1 - amount_out
                    } else {
                        p.reserve1 + amounts[i]
                    };
                    match p.spec_swap(a0out, a1out, to, b0, b1) {
                        Ok(_) => Ok((j, b0, b1)),
                        Err(e) => Err(RaumFiRouterError::PairError(e)),
                    }
                },
            }
        },
    }
}

/// Some asset pair serves two different hops of the path.
pub open spec fn spec_path_duplicates(path: Seq<u64>) -> bool {
    exists|i: int, k: int|
        0 <= i < k < path.len() - 1 && #[trigger] spec_canonical(path[i], path[i + 1])
            == #[trigger] spec_canonical(path[k], path[k + 1])
}

/// No hop pushes its pair's input-side balance past the integer range.
pub open spec fn spec_hops_in_range(s: Seq<RaumFiPair>, amounts: Seq<int>, path: Seq<u64>) -> bool {
    forall|i: int|
        0 <= i < path.len() - 1 ==> (match #[trigger] spec_hop_pair_index(s, path, i) {
            None => true,
            Some(j) => {
                let p = s[j];
                let rin: int = if path[i] == spec_canonical(path[i], path[i + 1]).0 {
                    p.reserve0 as int
                } else {
                    p.reserve1 as int
                };
                rin + amounts[i] <= i128::MAX
            },
        })
}

/// What a settlement needs of its inputs: one amount per path entry, none
/// negative, no asset pair served twice, and no input-side balance pushed
/// past the integer range.
pub open spec fn spec_swap_inputs_ok(s: Seq<RaumFiPair>, amounts: Seq<int>, path: Seq<u64>) -> bool {
    &&& path.len() >= 2
    &&& amounts.len() == path.len()
    &&& forall|i: int| 0 <= i < amounts.len() ==> amounts[i] >= 0
    &&& !spec_path_duplicates(path)
    &&& spec_hops_in_range(s, amounts, path)
}

/// The deposit split for a liquidity addition against oriented reserves:
/// the bootstrap case takes the desired amounts; otherwise prefer the full
/// A amount and fall back to the full B amount, honouring both minimums.
pub open spec fn spec_add_liquidity_amounts(
    amount_a_desired: int,
    amount_b_desired: int,
    amount_a_min: int,
    amount_b_min: int,
    reserve_a: int,
    reserve_b: int,
) -> Result<(int, int), RaumFiRouterError> {
    if reserve_a == 0 && reserve_b == 0 {
        Ok((amount_a_desired, amount_b_desired))
    } else if amount_a_desired * reserve_b > i128::MAX {
        Err(RaumFiRouterError::LibraryError(RaumFiLibraryError::Overflow))
    } else {
        let b_optimal = amount_a_desired * reserve_b / reserve_a;
        if b_optimal <= amount_b_desired {
            if b_optimal < amount_b_min {
                Err(RaumFiRouterError::InsufficientBAmount)
            } else {
                Ok((amount_a_desired, b_optimal))
            }
        } else {
            if amount_b_desired == 0 {
                Err(RaumFiRouterError::LibraryError(RaumFiLibraryError::InsufficientAmount))
            } else if amount_b_desired * reserve_a > i128::MAX {
                Err(RaumFiRouterError::LibraryError(RaumFiLibraryError::Overflow))
            } else {
                let a_optimal = amount_b_desired * reserve_a / reserve_b;
                if a_optimal < amount_a_min {
                    Err(RaumFiRouterError::InsufficientAAmount)
                } else {
                    Ok((a_optimal, amount_b_desired))
                }
            }
        }
    }
}

/// Order two token identities canonically, rejecting an identical pair.
pub fn sort_tokens(token_a: u64, token_b: u64) -> (r: Result<(u64, u64), RaumFiRouterError>)
    ensures
        token_a == token_b ==> r == Err::<(u64, u64), _>(RaumFiRouterError::SortIdenticalTokens),
        token_a != token_b ==> r == Ok::<_, RaumFiRouterError>(spec_canonical(token_a, token_b)),
{
    if token_a == token_b {
        return Err(RaumFiRouterError::SortIdenticalTokens);
    }
    if token_a < token_b {
        Ok((token_a, token_b))
    } else {
        Ok((token_b, token_a))
    }
}

/// Lift a pricing-library failure to the router's error space, keeping the
/// two deposit-minimum failures as the router's own.
fn map_liquidity_err(e: RaumFiLibraryError) -> (r: RaumFiRouterError)
    ensures
        e == RaumFiLibraryError::InsufficientBAmount ==> r
            == RaumFiRouterError::InsufficientBAmount,
        e == RaumFiLibraryError::InsufficientAAmount ==> r
            == RaumFiRouterError::InsufficientAAmount,
        e != RaumFiLibraryError::InsufficientBAmount && e
            != RaumFiLibraryError::InsufficientAAmount ==> r == RaumFiRouterError::LibraryError(e),
{
    match e {
        RaumFiLibraryError::InsufficientBAmount => RaumFiRouterError::InsufficientBAmount,
        RaumFiLibraryError::InsufficientAAmount => RaumFiRouterError::InsufficientAAmount,
        _ => RaumFiRouterError::LibraryError(e),
    }
}

/// The router's immutable configuration.
pub struct RaumFiRouter {
    pub initialized: bool,
    pub factory: u64,
    pub native: u64,
}

impl RaumFiRouter {
    /// A fresh, unconfigured router.
    pub fn new() -> (r: RaumFiRouter)
        ensures
            !r.initialized,
    {
        RaumFiRouter { initialized: false, factory: 0, native: 0 }
    }

    /// One-time setup with the registry's and the wrapped native asset's
    /// addresses; the configuration is immutable afterwards.
    pub fn initialize(&mut self, factory: u64, native: u64) -> (r: Result<(), RaumFiRouterError>)
        ensures
            old(self).initialized ==> r == Err::<(), _>(RaumFiRouterError::AlreadyInitialized)
                && *final(self) == *old(self),
            !old(self).initialized ==> r == Ok::<_, RaumFiRouterError>(()) && *final(self)
                == (RaumFiRouter { initialized: true, factory, native }),
    {
        if self.initialized {
            return Err(RaumFiRouterError::AlreadyInitialized);
        }
        self.initialized = true;
        self.factory = factory;
        self.native = native;
        Ok(())
    }

    /// The configured registry address.
    pub fn factory(&self) -> (r: u64)
        requires
            self.initialized,
        ensures
            r == self.factory,
    {
        self.factory
    }

    /// The configured wrapped native asset.
    pub fn native(&self) -> (r: u64)
        requires
            self.initialized,
        ensures
            r == self.native,
    {
        self.native
    }

    /// The configured wrapped native asset.
    pub fn get_native(&self) -> (r: u64)
        requires
            self.initialized,
        ensures
            r == self.native,
    {
        self.native
    }

    /// Whether the deadline has passed at the given ledger time.
    pub fn ensure(now: u64, deadline: u64) -> (r: Result<(), RaumFiRouterError>)
        ensures
            now > deadline ==> r == Err::<(), _>(RaumFiRouterError::DeadlineExpired),
            now <= deadline ==> r == Ok::<_, RaumFiRouterError>(()),
    {
        if now > deadline {
            return Err(RaumFiRouterError::DeadlineExpired);
        }
        Ok(())
    }

    /// Price an amount of one asset in the other at the given reserves.
    pub fn quote(amount_a: i128, reserve_a: i128, reserve_b: i128) -> (r: Result<
        i128,
        RaumFiLibraryError,
    >)
        ensures
            amount_a == 0 ==> r == Err::<i128, _>(RaumFiLibraryError::InsufficientAmount),
            amount_a != 0 && (reserve_a == 0 || reserve_b == 0) ==> r == Err::<i128, _>(
                RaumFiLibraryError::InsufficientLiquidity,
            ),
            amount_a > 0 && reserve_a > 0 && reserve_b > 0 ==> r == (if amount_a * reserve_b
                > i128::MAX {
                Err::<i128, _>(RaumFiLibraryError::Overflow)
            } else {
                Ok((amount_a * reserve_b / (reserve_a as int)) as i128)
            }),
    {
        calculate_quote(amount_a, reserve_a, reserve_b)
    }

    /// The swap output owed for an input against the given reserves.
    pub fn get_amount_out(amount_in: i128, reserve_in: i128, reserve_out: i128) -> (r: Result<
        i128,
        RaumFiLibraryError,
    >)
        ensures
            ({
                let step = spec_calculate_amount_out(
                    amount_in as int,
                    reserve_in as int,
                    reserve_out as int,
                );
                match step {
                    Ok(v) => r == Ok::<i128, RaumFiLibraryError>(v as i128),
                    Err(e) => r == Err::<i128, RaumFiLibraryError>(e),
                }
            }),
    {
        calculate_amount_out(amount_in, reserve_in, reserve_out)
    }

    /// The swap input demanded for an output against the given reserves.
    pub fn get_amount_in(amount_out: i128, reserve_in: i128, reserve_out: i128) -> (r: Result<
        i128,
        RaumFiLibraryError,
    >)
        ensures
            ({
                let step = spec_calculate_amount_in(
                    amount_out as int,
                    reserve_in as int,
                    reserve_out as int,
                );
                match step {
                    Ok(v) => r == Ok::<i128, RaumFiLibraryError>(v as i128),
                    Err(e) => r == Err::<i128, RaumFiLibraryError>(e),
                }
            }),
    {
        calculate_amount_in(amount_out, reserve_in, reserve_out)
    }

    /// Chain the swap output along a path at the pairs' live reserves.
    pub fn get_amounts_out(pairs: &Vec<RaumFiPair>, amount_in: i128, path: &Vec<u64>) -> (r: Result<
        Vec<i128>,
        RaumFiLibraryError,
    >)
        requires
            pairs_wf(pairs@),
        ensures
            ({
                let step = spec_get_amounts_out(pairs@, amount_in as int, path@);
                match step {
                    Err(e) => r == Err::<Vec<i128>, RaumFiLibraryError>(e),
                    Ok(sq) => r is Ok && r->Ok_0@.len() == sq.len() && (forall|k: int|
                        0 <= k < sq.len() ==> r->Ok_0@[k] == sq[k]),
                }
            }),
    {
        crate::library::get_amounts_out(pairs, amount_in, path)
    }

    /// Chain the required input backwards along a path at the pairs' live
    /// reserves.
    pub fn get_amounts_in(pairs: &Vec<RaumFiPair>, amount_out: i128, path: &Vec<u64>) -> (r: Result<
        Vec<i128>,
        RaumFiLibraryError,
    >)
        requires
            pairs_wf(pairs@),
        ensures
            ({
                let step = spec_get_amounts_in(pairs@, amount_out as int, path@);
                match step {
                    Err(e) => r == Err::<Vec<i128>, RaumFiLibraryError>(e),
                    Ok(sq) => r is Ok && r->Ok_0@.len() == sq.len() && (forall|k: int|
                        0 <= k < sq.len() ==> r->Ok_0@[k] == sq[k]),
                }
            }),
    {
        crate::library::get_amounts_in(pairs, amount_out, path)
    }

    /// Decide how a deposit is split against the live reserves of the pair
    /// for the two assets; a missing pair counts as empty reserves (the
    /// bootstrap case). Read-only: creation and settlement are the caller's.
    pub fn _add_liquidity(
        factory: &FactoryContract,
        pairs: &Vec<RaumFiPair>,
        token_a: u64,
        token_b: u64,
        amount_a_desired: i128,
        amount_b_desired: i128,
        amount_a_min: i128,
        amount_b_min: i128,
    ) -> (r: Result<(i128, i128), RaumFiRouterError>)
        requires
            world_wf(*factory, pairs@),
        ensures
            token_a == token_b ==> r == Err::<(i128, i128), _>(
                RaumFiRouterError::FactoryError(crate::errors::Error::IdenticalAddresses),
            ),
            token_a != token_b ==> ({
                let c = spec_canonical(token_a, token_b);
                let present = factory.spec_get_pair(token_a, token_b) is Some;
                let rs = spec_get_reserves(pairs@, token_a, token_b);
                let ra: int = if present {
                    rs->Ok_0.0
                } else {
                    0
                };
                let rb: int = if present {
                    rs->Ok_0.1
                } else {
                    0
                };
                ((ra == 0 && rb == 0) || (ra > 0 && rb > 0 && amount_a_desired > 0
                    && amount_b_desired >= 0)) ==> (match spec_add_liquidity_amounts(
                    amount_a_desired as int,
                    amount_b_desired as int,
                    amount_a_min as int,
                    amount_b_min as int,
                    ra,
                    rb,
                ) {
                    Ok(v) => r == Ok::<(i128, i128), RaumFiRouterError>(
                        (v.0 as i128, v.1 as i128),
                    ),
                    Err(e) => r == Err::<(i128, i128), RaumFiRouterError>(e),
                })
            }),
    {
        if token_a == token_b {
            return Err(
                RaumFiRouterError::FactoryError(crate::errors::Error::IdenticalAddresses),
            );
        }
        let present = match factory.get_pair(token_a, token_b) {
            Some(_) => true,
            None => false,
        };
        let (reserve_a, reserve_b) = if present {
            proof {
                let c = spec_canonical(token_a, token_b);
                lemma_find_pair_some_index(factory.pairs@, c.0, c.1);
                let j = choose|j: int|
                    0 <= j < factory.pairs@.len() && (#[trigger] factory.pairs@[j]).token0 == c.0
                        && factory.pairs@[j].token1 == c.1 && factory.pairs@[j].pair
                        == spec_find_pair(factory.pairs@, c.0, c.1)->Some_0;
                crate::library::lemma_lookup_pair_at_index(pairs@, j);
            }
            match get_reserves(pairs, token_a, token_b) {
                Ok(rs) => rs,
                Err(e) => {
                    return Err(RaumFiRouterError::LibraryError(e));
                },
            }
        } else {
            (0, 0)
        };
        match crate::library::optimal_liquidity(
            amount_a_desired,
            amount_b_desired,
            amount_a_min,
            amount_b_min,
            reserve_a,
            reserve_b,
        ) {
            Ok(v) => Ok(v),
            Err(e) => Err(map_liquidity_err(e)),
        }
    }

    /// Add liquidity for an unordered asset pair: enforce the deadline,
    /// create the pair if it does not exist yet, split the deposit against
    /// the live reserves, and mint pool shares to `to` for the deposit the
    /// host transfers into the pair. Fails atomically.
    #[verifier::rlimit(100)]
    #[verifier::spinoff_prover]
    pub fn add_liquidity(
        factory: &mut FactoryContract,
        pairs: &mut Vec<RaumFiPair>,
        token_a: u64,
        token_b: u64,
        amount_a_desired: i128,
        amount_b_desired: i128,
        amount_a_min: i128,
        amount_b_min: i128,
        to: u64,
        deadline: u64,
        now: u64,
        new_pair_address: u64,
    ) -> (r: Result<(i128, i128, i128), RaumFiRouterError>)
        requires
            world_wf(*old(factory), old(pairs)@),
            forall|i: int|
                0 <= i < old(factory).pairs@.len() ==> (#[trigger] old(factory).pairs@[i]).pair
                    != new_pair_address,
        ensures
            world_wf(*final(factory), final(pairs)@),
            r is Err ==> *final(factory) == *old(factory) && final(pairs)@ == old(pairs)@,
            now > deadline ==> r == Err::<(i128, i128, i128), _>(
                RaumFiRouterError::DeadlineExpired,
            ),
            ({
                let c = spec_canonical(token_a, token_b);
                let fee_to = old(factory).fee_to;
                now <= deadline && token_a != token_b && old(factory).spec_get_pair(
                    token_a,
                    token_b,
                ) is None ==> (if !old(factory).initialized {
                    r == Err::<(i128, i128, i128), _>(
                        RaumFiRouterError::FactoryError(crate::errors::Error::NotInitialized),
                    )
                } else if old(factory).pair_count == u32::MAX {
                    r == Err::<(i128, i128, i128), _>(
                        RaumFiRouterError::FactoryError(crate::errors::Error::Overflow),
                    )
                } else if amount_a_desired <= 0 || amount_b_desired <= 0 {
                    r == Err::<(i128, i128, i128), _>(
                        RaumFiRouterError::PairError(RaumFiPairError::InvalidAmount),
                    )
                } else {
                    let b0: int = if token_a == c.0 {
                        amount_a_desired as int
                    } else {
                        amount_b_desired as int
                    };
                    let b1: int = if token_a == c.0 {
                        amount_b_desired as int
                    } else {
                        amount_a_desired as int
                    };
                    match spec_mint_outcome(true, 0, 0, 0, 0, b0, b1) {
                        Err(e) => r == Err::<(i128, i128, i128), _>(
                            RaumFiRouterError::PairError(e),
                        ),
                        Ok((liq, fee_liq, bootstrap)) => {
                            &&& r == Ok::<(i128, i128, i128), RaumFiRouterError>(
                                (amount_a_desired, amount_b_desired, liq as i128),
                            )
                            &&& final(factory).spec_get_pair(token_a, token_b) == Some(
                                new_pair_address,
                            )
                            &&& final(factory).pair_count == old(factory).pair_count + 1
                            &&& final(pairs)@.len() == old(pairs)@.len() + 1
                            &&& (forall|k: int|
                                0 <= k < old(pairs)@.len() ==> final(pairs)@[k] == old(
                                    pairs,
                                )@[k])
                            &&& ({
                                let q = final(pairs)@.last();
                                &&& q.address == new_pair_address
                                &&& q.initialized
                                &&& q.token0 == c.0
                                &&& q.token1 == c.1
                                &&& q.unlocked
                                &&& q.reserve0 == b0
                                &&& q.reserve1 == b1
                                &&& q.k_last == b0 * b1
                                &&& q.token.total_supply == liq + 1000
                                &&& (forall|h: u64|
                                    spec_balance_of(q.token.balances@, h) == (if h
                                        == new_pair_address {
                                        1000int
                                    } else {
                                        0int
                                    }) + (if h == to {
                                        liq
                                    } else {
                                        0int
                                    }))
                            })
                        },
                    }
                })
            }),
            ({
                let c = spec_canonical(token_a, token_b);
                let fee_to = old(factory).fee_to;
                now <= deadline && token_a != token_b && old(factory).spec_get_pair(
                    token_a,
                    token_b,
                ) is Some ==> {
                    let j = spec_lookup_pair(old(pairs)@, c.0, c.1)->Some_0;
                    let p = old(pairs)@[j];
                    let ra: int = if token_a == c.0 {
                        p.reserve0 as int
                    } else {
                        p.reserve1 as int
                    };
                    let rb: int = if token_a == c.0 {
                        p.reserve1 as int
                    } else {
                        p.reserve0 as int
                    };
                    ((ra == 0 && rb == 0) || (ra > 0 && rb > 0 && amount_a_desired > 0
                        && amount_b_desired >= 0)) ==> (match spec_add_liquidity_amounts(
                        amount_a_desired as int,
                        amount_b_desired as int,
                        amount_a_min as int,
                        amount_b_min as int,
                        ra,
                        rb,
                    ) {
                        Err(e) => r == Err::<(i128, i128, i128), _>(e),
                        Ok((aa, ab)) => {
                            let b0: int = p.reserve0 + (if token_a == c.0 {
                                aa
                            } else {
                                ab
                            });
                            let b1: int = p.reserve1 + (if token_a == c.0 {
                                ab
                            } else {
                                aa
                            });
                            if aa < 0 || ab < 0 {
                                r == Err::<(i128, i128, i128), _>(
                                    RaumFiRouterError::PairError(RaumFiPairError::InvalidAmount),
                                )
                            } else if b0 > i128::MAX || b1 > i128::MAX {
                                r == Err::<(i128, i128, i128), _>(
                                    RaumFiRouterError::PairError(RaumFiPairError::Overflow),
                                )
                            } else {
                                match spec_mint_outcome(
                                    p.unlocked,
                                    p.reserve0 as int,
                                    p.reserve1 as int,
                                    p.k_last as int,
                                    p.token.total_supply as int,
                                    b0,
                                    b1,
                                ) {
                                    Err(e) => r == Err::<(i128, i128, i128), _>(
                                        RaumFiRouterError::PairError(e),
                                    ),
                                    Ok((liq, fee_liq, bootstrap)) => {
                                        &&& r == Ok::<(i128, i128, i128), RaumFiRouterError>(
                                            (aa as i128, ab as i128, liq as i128),
                                        )
                                        &&& *final(factory) == *old(factory)
                                        &&& final(pairs)@.len() == old(pairs)@.len()
                                        &&& (forall|k: int|
                                            0 <= k < old(pairs)@.len() && k != j
                                                ==> final(pairs)@[k] == old(pairs)@[k])
                                        &&& ({
                                            let q = final(pairs)@[j];
                                            &&& q.same_identity(p)
                                            &&& q.reserve0 == b0
                                            &&& q.reserve1 == b1
                                            &&& q.k_last == b0 * b1
                                            &&& q.token.total_supply == p.token.total_supply
                                                + fee_liq + liq + (if bootstrap {
                                                1000int
                                            } else {
                                                0int
                                            })
                                            &&& (forall|h: u64|
                                                spec_balance_of(q.token.balances@, h)
                                                    == spec_balance_of(p.token.balances@, h) + (
                                                if h == fee_to {
                                                    fee_liq
                                                } else {
                                                    0int
                                                }) + (if bootstrap && h == p.address {
                                                    1000int
                                                } else {
                                                    0int
                                                }) + (if h == to {
                                                    liq
                                                } else {
                                                    0int
                                                }))
                                        })
                                    },
                                }
                            }
                        },
                    })
                }
            }),
    {
        if now > deadline {
            return Err(RaumFiRouterError::DeadlineExpired);
        }
        let (token0, token1) = if token_a < token_b {
            (token_a, token_b)
        } else {
            (token_b, token_a)
        };
        match factory.get_pair(token_a, token_b) {
            Some(_) => {
                proof {
                    let c = spec_canonical(token_a, token_b);
                    lemma_find_pair_some_index(factory.pairs@, c.0, c.1);
                    let j0 = choose|j0: int|
                        0 <= j0 < factory.pairs@.len() && (#[trigger] factory.pairs@[j0]).token0
                            == c.0 && factory.pairs@[j0].token1 == c.1 && factory.pairs@[j0].pair
                            == spec_find_pair(factory.pairs@, c.0, c.1)->Some_0;
                    crate::library::lemma_lookup_pair_at_index(pairs@, j0);
                }
                let idx = match find_pair_index(pairs, token0, token1) {
                    Some(i) => i,
                    None => {
                        proof {
                            assert(false);
                        }
                        return Err(RaumFiRouterError::PairDoesNotExist);
                    },
                };
                let reserve0 = pairs[idx].reserve0;
                let reserve1 = pairs[idx].reserve1;
                let (reserve_a, reserve_b) = if token_a == token0 {
                    (reserve0, reserve1)
                } else {
                    (reserve1, reserve0)
                };
                let (amount_a, amount_b) = match crate::library::optimal_liquidity(
                    amount_a_desired,
                    amount_b_desired,
                    amount_a_min,
                    amount_b_min,
                    reserve_a,
                    reserve_b,
                ) {
                    Ok(v) => v,
                    Err(e) => {
                        return Err(map_liquidity_err(e));
                    },
                };
                if amount_a < 0 || amount_b < 0 {
                    return Err(RaumFiRouterError::PairError(RaumFiPairError::InvalidAmount));
                }
                let (deposit0, deposit1) = if token_a == token0 {
                    (amount_a, amount_b)
                } else {
                    (amount_b, amount_a)
                };
                let balance0 = match reserve0.checked_add(deposit0) {
                    Some(b) => b,
                    None => {
                        return Err(RaumFiRouterError::PairError(RaumFiPairError::Overflow));
                    },
                };
                let balance1 = match reserve1.checked_add(deposit1) {
                    Some(b) => b,
                    None => {
                        return Err(RaumFiRouterError::PairError(RaumFiPairError::Overflow));
                    },
                };
                match pairs[idx].mint_preview(balance0, balance1) {
                    Ok(_) => {},
                    Err(e) => {
                        return Err(RaumFiRouterError::PairError(e));
                    },
                }
                let fee_to = factory.get_fee_to();
                let ghost pairs_before = pairs@;
                let mut p = pairs.remove(idx);
                let minted = match p.mint(to, balance0, balance1, fee_to) {
                    Ok(l) => l,
                    Err(_) => {
                        proof {
                            assert(false);
                        }
                        return Err(RaumFiRouterError::PairError(RaumFiPairError::PairTokenError));
                    },
                };
                pairs.insert(idx, p);
                proof {
                    assert(pairs@ =~= pairs_before.update(idx as int, pairs@[idx as int]));
                }
                Ok((amount_a, amount_b, minted))
            },
            None => {
                if token_a == token_b {
                    return Err(
                        RaumFiRouterError::FactoryError(crate::errors::Error::IdenticalAddresses),
                    );
                }
                if !factory.initialized {
                    return Err(
                        RaumFiRouterError::FactoryError(crate::errors::Error::NotInitialized),
                    );
                }
                if factory.all_pairs_length() == u32::MAX {
                    return Err(RaumFiRouterError::FactoryError(crate::errors::Error::Overflow));
                }
                if amount_a_desired <= 0 || amount_b_desired <= 0 {
                    return Err(RaumFiRouterError::PairError(RaumFiPairError::InvalidAmount));
                }
                let (balance0, balance1) = if token_a == token0 {
                    (amount_a_desired, amount_b_desired)
                } else {
                    (amount_b_desired, amount_a_desired)
                };
                let product = match balance0.checked_mul(balance1) {
                    Some(p) => p,
                    None => {
                        return Err(RaumFiRouterError::PairError(RaumFiPairError::Overflow));
                    },
                };
                proof {
                    assert(product > 0) by (nonlinear_arith)
                        requires
                            product == balance0 * balance1,
                            balance0 > 0,
                            balance1 > 0,
                    ;
                }
                let root = crate::library::sqrt_i128(product);
                let liquidity = root - 1000;
                if liquidity <= 0 {
                    return Err(
                        RaumFiRouterError::PairError(RaumFiPairError::InsufficientLiquidityMinted),
                    );
                }
                let fee_to = factory.get_fee_to();
                let factory_address = factory.address;
                match factory.create_new_pair(token_a, token_b, new_pair_address) {
                    Ok(_) => {},
                    Err(_) => {
                        proof {
                            assert(false);
                        }
                        return Err(
                            RaumFiRouterError::FactoryError(crate::errors::Error::PairExists),
                        );
                    },
                }
                let mut p = RaumFiPair::new(new_pair_address);
                match p.initialize(token0, token1, factory_address) {
                    Ok(_) => {},
                    Err(_) => {
                        proof {
                            assert(false);
                        }
                        return Err(RaumFiRouterError::PairError(RaumFiPairError::Locked));
                    },
                }
                let minted = match p.mint(to, balance0, balance1, fee_to) {
                    Ok(l) => l,
                    Err(_) => {
                        proof {
                            assert(false);
                        }
                        return Err(RaumFiRouterError::PairError(RaumFiPairError::PairTokenError));
                    },
                };
                proof {
                    assert forall|i: int|
                        0 <= i < pairs@.len() implies !((#[trigger] pairs@[i]).token0 == token0
                            && pairs@[i].token1 == token1) by {
                        if pairs@[i].token0 == token0 && pairs@[i].token1 == token1 {
                            crate::factory::lemma_find_pair_at_index(old(factory).pairs@, i);
                        }
                    }
                }
                pairs.push(p);
                Ok((amount_a_desired, amount_b_desired, minted))
            },
        }
    }

    /// Remove liquidity from the pair of an unordered asset pair: enforce
    /// the deadline, move the caller's pool shares into the pair, burn them,
    /// and check the redeemed amounts against the minimums. Fails
    /// atomically; a missing pair is an error and changes nothing.
    #[verifier::rlimit(100)]
    #[verifier::spinoff_prover]
    pub fn remove_liquidity(
        factory: &FactoryContract,
        pairs: &mut Vec<RaumFiPair>,
        token_a: u64,
        token_b: u64,
        liquidity: i128,
        amount_a_min: i128,
        amount_b_min: i128,
        to: u64,
        deadline: u64,
        now: u64,
    ) -> (r: Result<(i128, i128), RaumFiRouterError>)
        requires
            world_wf(*factory, old(pairs)@),
        ensures
            world_wf(*factory, final(pairs)@),
            r is Err ==> final(pairs)@ == old(pairs)@,
            now > deadline ==> r == Err::<(i128, i128), _>(RaumFiRouterError::DeadlineExpired),
            now <= deadline && factory.spec_get_pair(token_a, token_b) is None ==> r == Err::<
                (i128, i128),
                _,
            >(RaumFiRouterError::PairDoesNotExist),
            ({
                let c = spec_canonical(token_a, token_b);
                now <= deadline && factory.spec_get_pair(token_a, token_b) is Some ==> {
                    let j = spec_lookup_pair(old(pairs)@, c.0, c.1)->Some_0;
                    let p = old(pairs)@[j];
                    let held = spec_balance_of(p.token.balances@, to);
                    let pair_held = spec_balance_of(p.token.balances@, p.address) + (if to
                        == p.address {
                        0int
                    } else {
                        liquidity as int
                    });
                    if liquidity < 0 {
                        r == Err::<(i128, i128), _>(
                            RaumFiRouterError::TokenError(
                                crate::errors::PairTokenError::InvalidAmount,
                            ),
                        )
                    } else if held < liquidity {
                        r == Err::<(i128, i128), _>(
                            RaumFiRouterError::TokenError(
                                crate::errors::PairTokenError::InsufficientBalance,
                            ),
                        )
                    } else {
                        match crate::pair::spec_burn_outcome(
                            p.unlocked,
                            pair_held,
                            p.token.total_supply as int,
                            p.reserve0 as int,
                            p.reserve1 as int,
                        ) {
                            Err(e) => r == Err::<(i128, i128), _>(
                                RaumFiRouterError::PairError(e),
                            ),
                            Ok((amount0, amount1)) => {
                                let amount_a: int = if token_a == c.0 {
                                    amount0
                                } else {
                                    amount1
                                };
                                let amount_b: int = if token_a == c.0 {
                                    amount1
                                } else {
                                    amount0
                                };
                                if amount_a < amount_a_min {
                                    r == Err::<(i128, i128), _>(
                                        RaumFiRouterError::InsufficientAAmount,
                                    )
                                } else if amount_b < amount_b_min {
                                    r == Err::<(i128, i128), _>(
                                        RaumFiRouterError::InsufficientBAmount,
                                    )
                                } else {
                                    &&& r == Ok::<(i128, i128), RaumFiRouterError>(
                                        (amount_a as i128, amount_b as i128),
                                    )
                                    &&& final(pairs)@.len() == old(pairs)@.len()
                                    &&& (forall|k: int|
                                        0 <= k < old(pairs)@.len() && k != j
                                            ==> final(pairs)@[k] == old(pairs)@[k])
                                    &&& ({
                                        let q = final(pairs)@[j];
                                        &&& q.same_identity(p)
                                        &&& q.reserve0 == p.reserve0 - amount0
                                        &&& q.reserve1 == p.reserve1 - amount1
                                        &&& q.k_last == p.k_last
                                        &&& q.token.total_supply == p.token.total_supply - (
                                        pair_held - 1000)
                                        &&& (forall|h: u64|
                                            spec_balance_of(q.token.balances@, h)
                                                == spec_balance_of(p.token.balances@, h) - (if h
                                                == to {
                                                liquidity as int
                                            } else {
                                                0int
                                            }) + (if h == p.address {
                                                liquidity as int
                                            } else {
                                                0int
                                            }) - (if h == p.address {
                                                pair_held - 1000
                                            } else {
                                                0int
                                            }))
                                    })
                                }
                            },
                        }
                    }
                }
            }),
    {
        if now > deadline {
            return Err(RaumFiRouterError::DeadlineExpired);
        }
        let (token0, token1) = if token_a < token_b {
            (token_a, token_b)
        } else {
            (token_b, token_a)
        };
        match factory.get_pair(token_a, token_b) {
            Some(_) => {},
            None => {
                return Err(RaumFiRouterError::PairDoesNotExist);
            },
        }
        proof {
            let c = spec_canonical(token_a, token_b);
            lemma_find_pair_some_index(factory.pairs@, c.0, c.1);
            let j0 = choose|j0: int|
                0 <= j0 < factory.pairs@.len() && (#[trigger] factory.pairs@[j0]).token0 == c.0
                    && factory.pairs@[j0].token1 == c.1 && factory.pairs@[j0].pair
                    == spec_find_pair(factory.pairs@, c.0, c.1)->Some_0;
            crate::library::lemma_lookup_pair_at_index(pairs@, j0);
        }
        let idx = match find_pair_index(pairs, token0, token1) {
            Some(i) => i,
            None => {
                proof {
                    assert(false);
                }
                return Err(RaumFiRouterError::PairDoesNotExist);
            },
        };
        if liquidity < 0 {
            return Err(
                RaumFiRouterError::TokenError(crate::errors::PairTokenError::InvalidAmount),
            );
        }
        let held = crate::pair_token::PairToken::balance(&pairs[idx].token, to);
        if held < liquidity {
            return Err(
                RaumFiRouterError::TokenError(crate::errors::PairTokenError::InsufficientBalance),
            );
        }
        let addr = pairs[idx].address;
        let pair_bal = crate::pair_token::PairToken::balance(&pairs[idx].token, addr);
        proof {
            crate::pair_token::lemma_balance_le_sum(pairs@[idx as int].token.balances@, addr);
            crate::pair_token::lemma_balance_le_sum(pairs@[idx as int].token.balances@, to);
            if to != addr {
                crate::pair_token::lemma_two_balances_le_sum(
                    pairs@[idx as int].token.balances@,
                    to,
                    addr,
                );
            }
        }
        let pair_held = if to == addr {
            pair_bal
        } else {
            pair_bal + liquidity
        };
        if !pairs[idx].unlocked {
            return Err(RaumFiRouterError::PairError(RaumFiPairError::Locked));
        }
        let userbalance = pair_held - 1000;
        let supply = pairs[idx].token.get_total_supply();
        let reserve0 = pairs[idx].reserve0;
        let reserve1 = pairs[idx].reserve1;
        let scaled0 = match reserve0.checked_mul(userbalance) {
            Some(s) => s,
            None => {
                return Err(RaumFiRouterError::PairError(RaumFiPairError::Overflow));
            },
        };
        let amount0 = match scaled0.checked_div(supply) {
            Some(q) => q,
            None => {
                return Err(RaumFiRouterError::PairError(RaumFiPairError::Overflow));
            },
        };
        let scaled1 = match reserve1.checked_mul(userbalance) {
            Some(s) => s,
            None => {
                return Err(RaumFiRouterError::PairError(RaumFiPairError::Overflow));
            },
        };
        let amount1 = match scaled1.checked_div(supply) {
            Some(q) => q,
            None => {
                return Err(RaumFiRouterError::PairError(RaumFiPairError::Overflow));
            },
        };
        if amount0 <= 0 || amount1 <= 0 {
            return Err(
                RaumFiRouterError::PairError(RaumFiPairError::InsufficientLiquidityBurned),
            );
        }
        proof {
            if userbalance < 0 {
                assert(scaled0 <= 0) by (nonlinear_arith)
                    requires
                        scaled0 == reserve0 * userbalance,
                        reserve0 >= 0,
                        userbalance < 0,
                ;
                if scaled0 < 0 {
                    assert(((scaled0 * -1) as int) / (supply as int) >= 0) by (nonlinear_arith)
                        requires
                            scaled0 < 0,
                            supply > 0,
                    ;
                }
                assert(false);
            }
        }
        let (amount_a, amount_b) = if token_a == token0 {
            (amount0, amount1)
        } else {
            (amount1, amount0)
        };
        if amount_a < amount_a_min {
            return Err(RaumFiRouterError::InsufficientAAmount);
        }
        if amount_b < amount_b_min {
            return Err(RaumFiRouterError::InsufficientBAmount);
        }
        let ghost pairs_before = pairs@;
        let mut p = pairs.remove(idx);
        match crate::pair_token::PairToken::transfer(&mut p.token, to, addr, liquidity) {
            Ok(_) => {},
            Err(_) => {
                proof {
                    assert(false);
                }
                pairs.insert(idx, p);
                return Err(
                    RaumFiRouterError::TokenError(
                        crate::errors::PairTokenError::InsufficientBalance,
                    ),
                );
            },
        }
        let b0 = p.reserve0;
        let b1 = p.reserve1;
        let burned = match p.burn(to, b0, b1) {
            Ok(v) => v,
            Err(_) => {
                proof {
                    assert(false);
                }
                pairs.insert(idx, p);
                return Err(RaumFiRouterError::PairError(RaumFiPairError::PairTokenError));
            },
        };
        pairs.insert(idx, p);
        proof {
            assert(pairs@ =~= pairs_before.update(idx as int, pairs@[idx as int]));
        }
        let (out_a, out_b) = if token_a == token0 {
            (burned.0, burned.1)
        } else {
            (burned.1, burned.0)
        };
        Ok((out_a, out_b))
    }

    /// Settle a swap hop by hop, left to right: every hop is checked first
    /// against the live pairs, then all hops are committed, so a failing
    /// hop changes nothing.
    #[verifier::rlimit(100)]
    #[verifier::spinoff_prover]
    fn _swap(
        pairs: &mut Vec<RaumFiPair>,
        amounts: &Vec<i128>,
        path: &Vec<u64>,
        to_final: u64,
    ) -> (r: Result<(), RaumFiRouterError>)
        requires
            pairs_wf(old(pairs)@),
            spec_swap_inputs_ok(old(pairs)@, seq_as_int(amounts@), path@),
        ensures
            pairs_wf(final(pairs)@),
            final(pairs)@.len() == old(pairs)@.len(),
            forall|j: int|
                0 <= j < old(pairs)@.len() ==> {
                    &&& (#[trigger] final(pairs)@[j]).same_identity(old(pairs)@[j])
                    &&& final(pairs)@[j].token == old(pairs)@[j].token
                    &&& final(pairs)@[j].k_last == old(pairs)@[j].k_last
                },
            r is Err ==> final(pairs)@ == old(pairs)@ && (exists|i: int|
                0 <= i < path@.len() - 1 && spec_hop_result(
                    old(pairs)@,
                    seq_as_int(amounts@),
                    path@,
                    to_final,
                    i,
                ) == Err::<(int, int, int), _>(r->Err_0) && (forall|k: int|
                    0 <= k < i ==> spec_hop_result(
                        old(pairs)@,
                        seq_as_int(amounts@),
                        path@,
                        to_final,
                        k,
                    ) is Ok)),
            r is Ok ==> {
                &&& (forall|i: int|
                    0 <= i < path@.len() - 1 ==> spec_hop_result(
                        old(pairs)@,
                        seq_as_int(amounts@),
                        path@,
                        to_final,
                        i,
                    ) is Ok)
                &&& (forall|i: int|
                    0 <= i < path@.len() - 1 ==> {
                        let step = #[trigger] spec_hop_result(
                            old(pairs)@,
                            seq_as_int(amounts@),
                            path@,
                            to_final,
                            i,
                        );
                        final(pairs)@[step->Ok_0.0] == (RaumFiPair {
                            reserve0: step->Ok_0.1 as i128,
                            reserve1: step->Ok_0.2 as i128,
                            ..old(pairs)@[step->Ok_0.0]
                        })
                    })
                &&& (forall|j: int|
                    0 <= j < old(pairs)@.len() && (forall|i: int|
                        0 <= i < path@.len() - 1 ==> spec_hop_pair_index(old(pairs)@, path@, i)
                            != Some(j)) ==> final(pairs)@[j] == old(pairs)@[j])
            },
    {
        let n = path.len();
        let nhops = n - 1;
        let ghost s0 = pairs@;
        let ghost am = seq_as_int(amounts@);
        // Check every hop against the resting state before touching anything.
        let mut i: usize = 0;
        while i < nhops
            invariant
                pairs_wf(pairs@),
                pairs@ == s0,
                am == seq_as_int(amounts@),
                spec_swap_inputs_ok(s0, am, path@),
                n == path@.len(),
                nhops == n - 1,
                amounts@.len() == n,
                2 <= n,
                0 <= i <= nhops,
                forall|k: int|
                    0 <= k < i ==> #[trigger] spec_hop_result(s0, am, path@, to_final, k) is Ok,
            decreases nhops - i,
        {
            let input = path[i];
            let output = path[i + 1];
            let (c0, c1) = if input < output {
                (input, output)
            } else {
                (output, input)
            };
            proof {
                assert(am[i as int] == amounts@[i as int]);
                assert(am[i as int + 1] == amounts@[i as int + 1]);
                assert(am[i as int] >= 0 && am[i as int + 1] >= 0);
                assert((c0, c1) == spec_canonical(path@[i as int], path@[i as int + 1]));
            }
            let j = match find_pair_index(pairs, c0, c1) {
                Some(j) => j,
                None => {
                    proof {
                        assert(spec_hop_result(s0, am, path@, to_final, i as int)
                            == Err::<(int, int, int), _>(RaumFiRouterError::PairDoesNotExist));
                    }
                    return Err(RaumFiRouterError::PairDoesNotExist);
                },
            };
            proof {
                assert(spec_hop_pair_index(s0, path@, i as int) == Some(j as int));
                assert(s0[j as int].wf());
            }
            let amount_out = amounts[i + 1];
            let (a0out, a1out) = if input == c0 {
                (0, amount_out)
            } else {
                (amount_out, 0)
            };
            let to_hop = if i < nhops - 1 {
                let ahead = path[i + 2];
                let (d0, d1) = if output < ahead {
                    (output, ahead)
                } else {
                    (ahead, output)
                };
                proof {
                    assert((d0, d1) == spec_canonical(
                        path@[i as int + 1],
                        path@[i as int + 2],
                    ));
                }
                match find_pair_index(pairs, d0, d1) {
                    Some(k) => pairs[k].address,
                    None => {
                        proof {
                            assert(spec_hop_result(s0, am, path@, to_final, i as int)
                                == Err::<(int, int, int), _>(RaumFiRouterError::PairDoesNotExist));
                        }
                        return Err(RaumFiRouterError::PairDoesNotExist);
                    },
                }
            } else {
                to_final
            };
            if !pairs[j].unlocked {
                return Err(RaumFiRouterError::PairError(RaumFiPairError::Locked));
            }
            if a0out == 0 && a1out == 0 {
                return Err(
                    RaumFiRouterError::PairError(RaumFiPairError::InsufficientOutputAmount),
                );
            }
            if a0out > pairs[j].reserve0 || a1out > pairs[j].reserve1 {
                return Err(RaumFiRouterError::PairError(RaumFiPairError::InsufficientLiquidity));
            }
            let (b0, b1) = if input == c0 {
                (pairs[j].reserve0 + amounts[i], pairs[j].reserve1 - a1out)
            } else {
                (pairs[j].reserve0 - a0out, pairs[j].reserve1 + amounts[i])
            };
            match pairs[j].swap_preview(a0out, a1out, to_hop, b0, b1) {
                Ok(_) => {},
                Err(e) => {
                    return Err(RaumFiRouterError::PairError(e));
                },
            }
            proof {
                assert(spec_hop_result(s0, am, path@, to_final, i as int) is Ok);
            }
            i = i + 1;
        }
        // Commit the hops; every one of them is now known to pass.
        let mut i: usize = 0;
        while i < nhops
            invariant
                pairs_wf(pairs@),
                pairs_wf(s0),
                am == seq_as_int(amounts@),
                spec_swap_inputs_ok(s0, am, path@),
                n == path@.len(),
                nhops == n - 1,
                amounts@.len() == n,
                2 <= n,
                0 <= i <= nhops,
                pairs@.len() == s0.len(),
                forall|k: int|
                    0 <= k < nhops ==> #[trigger] spec_hop_result(s0, am, path@, to_final, k)
                        is Ok,
                forall|j: int|
                    0 <= j < s0.len() ==> {
                        &&& (#[trigger] pairs@[j]).same_identity(s0[j])
                        &&& pairs@[j].token == s0[j].token
                        &&& pairs@[j].k_last == s0[j].k_last
                        &&& pairs@[j].wf()
                    },
                forall|k: int|
                    0 <= k < i ==> {
                        let step = #[trigger] spec_hop_result(s0, am, path@, to_final, k);
                        pairs@[step->Ok_0.0] == (RaumFiPair {
                            reserve0: step->Ok_0.1 as i128,
                            reserve1: step->Ok_0.2 as i128,
                            ..s0[step->Ok_0.0]
                        })
                    },
                forall|j: int|
                    0 <= j < s0.len() && (forall|k: int|
                        0 <= k < i ==> spec_hop_pair_index(s0, path@, k) != Some(j)) ==> pairs@[j]
                        == s0[j],
            decreases nhops - i,
        {
            let ghost step = spec_hop_result(s0, am, path@, to_final, i as int);
            let ghost c = spec_canonical(path@[i as int], path@[i as int + 1]);
            let ghost j_spec = spec_lookup_pair(s0, c.0, c.1)->Some_0;
            proof {
                assert(step is Ok);
                assert(spec_lookup_pair(s0, c.0, c.1) is Some);
                crate::library::lemma_lookup_pair_index_matches(s0, c.0, c.1);
                assert(pairs@[j_spec].token0 == s0[j_spec].token0);
                assert(pairs@[j_spec].token1 == s0[j_spec].token1);
                crate::library::lemma_lookup_pair_at_index(pairs@, j_spec);
                assert forall|k: int| 0 <= k < i implies spec_hop_pair_index(s0, path@, k)
                    != Some(j_spec) by {
                    if 0 <= k < i && spec_hop_pair_index(s0, path@, k) == Some(j_spec) {
                        let ck = spec_canonical(path@[k], path@[k + 1]);
                        crate::library::lemma_lookup_pair_index_matches(s0, ck.0, ck.1);
                        assert(ck == c);
                    }
                }
                assert(pairs@[j_spec] == s0[j_spec]);
                assert(am[i as int] == amounts@[i as int]);
                assert(am[i as int + 1] == amounts@[i as int + 1]);
                assert(am[i as int] >= 0 && am[i as int + 1] >= 0);
                assert(s0[j_spec].wf());
                assert(spec_hop_pair_index(s0, path@, i as int) == Some(j_spec));
            }
            let input = path[i];
            let output = path[i + 1];
            let (c0, c1) = if input < output {
                (input, output)
            } else {
                (output, input)
            };
            let j = match find_pair_index(pairs, c0, c1) {
                Some(j) => j,
                None => {
                    proof {
                        assert(false);
                    }
                    return Err(RaumFiRouterError::PairDoesNotExist);
                },
            };
            proof {
                assert(j as int == j_spec);
            }
            let amount_out = amounts[i + 1];
            let (a0out, a1out) = if input == c0 {
                (0, amount_out)
            } else {
                (amount_out, 0)
            };
            let to_hop = if i < nhops - 1 {
                let ahead = path[i + 2];
                let (d0, d1) = if output < ahead {
                    (output, ahead)
                } else {
                    (ahead, output)
                };
                proof {
                    assert((d0, d1) == spec_canonical(
                        path@[i as int + 1],
                        path@[i as int + 2],
                    ));
                    assert(spec_lookup_pair(s0, d0, d1) is Some);
                    crate::library::lemma_lookup_pair_index_matches(s0, d0, d1);
                    let k_spec = spec_lookup_pair(s0, d0, d1)->Some_0;
                    assert(pairs@[k_spec].token0 == s0[k_spec].token0);
                    assert(pairs@[k_spec].token1 == s0[k_spec].token1);
                    crate::library::lemma_lookup_pair_at_index(pairs@, k_spec);
                }
                match find_pair_index(pairs, d0, d1) {
                    Some(k) => pairs[k].address,
                    None => {
                        proof {
                            assert(false);
                        }
                        return Err(RaumFiRouterError::PairDoesNotExist);
                    },
                }
            } else {
                to_final
            };
            let (b0, b1) = if input == c0 {
                (pairs[j].reserve0 + amounts[i], pairs[j].reserve1 - a1out)
            } else {
                (pairs[j].reserve0 - a0out, pairs[j].reserve1 + amounts[i])
            };
            proof {
                assert(b0 == step->Ok_0.1 && b1 == step->Ok_0.2);
            }
            let ghost before = pairs@;
            let mut p = pairs.remove(j);
            match p.swap(a0out, a1out, to_hop, b0, b1) {
                Ok(_) => {},
                Err(_) => {
                    proof {
                        assert(false);
                    }
                    pairs.insert(j, p);
                    return Err(RaumFiRouterError::PairError(RaumFiPairError::K));
                },
            }
            pairs.insert(j, p);
            proof {
                assert(pairs@ =~= before.update(j as int, pairs@[j as int]));
                assert(pairs@[j_spec] == (RaumFiPair {
                    reserve0: step->Ok_0.1 as i128,
                    reserve1: step->Ok_0.2 as i128,
                    ..s0[j_spec]
                }));
                assert forall|k: int| 0 <= k < i implies {
                    let stepk = #[trigger] spec_hop_result(s0, am, path@, to_final, k);
                    pairs@[stepk->Ok_0.0] == (RaumFiPair {
                        reserve0: stepk->Ok_0.1 as i128,
                        reserve1: stepk->Ok_0.2 as i128,
                        ..s0[stepk->Ok_0.0]
                    })
                } by {
                    let stepk = spec_hop_result(s0, am, path@, to_final, k);
                    assert(stepk is Ok);
                    assert(spec_hop_pair_index(s0, path@, k) is Some);
                    let ck = spec_canonical(path@[k], path@[k + 1]);
                    crate::library::lemma_lookup_pair_index_matches(s0, ck.0, ck.1);
                    assert(stepk->Ok_0.0 == spec_hop_pair_index(s0, path@, k)->Some_0);
                    assert(spec_hop_pair_index(s0, path@, k) != Some(j_spec));
                    assert(stepk->Ok_0.0 != j_spec);
                    assert(pairs@[stepk->Ok_0.0] == before[stepk->Ok_0.0]);
                }
            }
            i = i + 1;
        }
        Ok(())
    }

    /// Check a settlement's inputs: reject a path that uses one pair twice
    /// and a hop that would push a balance past the integer range.
    fn check_hops(pairs: &Vec<RaumFiPair>, amounts: &Vec<i128>, path: &Vec<u64>) -> (r: Result<
        (),
        RaumFiRouterError,
    >)
        requires
            pairs_wf(pairs@),
            path@.len() >= 2,
            amounts@.len() == path@.len(),
            forall|i: int| 0 <= i < amounts@.len() ==> amounts@[i] >= 0,
        ensures
            r is Ok ==> spec_swap_inputs_ok(pairs@, seq_as_int(amounts@), path@),
            spec_path_duplicates(path@) ==> r == Err::<(), _>(
                RaumFiRouterError::LibraryError(RaumFiLibraryError::InvalidPath),
            ),
            !spec_path_duplicates(path@) && !spec_hops_in_range(
                pairs@,
                seq_as_int(amounts@),
                path@,
            ) ==> r == Err::<(), _>(RaumFiRouterError::PairError(RaumFiPairError::Overflow)),
            !spec_path_duplicates(path@) && spec_hops_in_range(
                pairs@,
                seq_as_int(amounts@),
                path@,
            ) ==> r is Ok,
    {
        let n = path.len();
        let nhops = n - 1;
        let mut i: usize = 0;
        while i < nhops
            invariant
                n == path@.len(),
                nhops == n - 1,
                2 <= n,
                0 <= i <= nhops,
                forall|a: int, b: int|
                    0 <= a < b < nhops && a < i ==> #[trigger] spec_canonical(
                        path@[a],
                        path@[a + 1],
                    ) != #[trigger] spec_canonical(path@[b], path@[b + 1]),
            decreases nhops - i,
        {
            let (c0, c1) = if path[i] < path[i + 1] {
                (path[i], path[i + 1])
            } else {
                (path[i + 1], path[i])
            };
            let mut k: usize = i + 1;
            while k < nhops
                invariant
                    n == path@.len(),
                    nhops == n - 1,
                    2 <= n,
                    0 <= i < nhops,
                    i < k <= nhops,
                    (c0, c1) == spec_canonical(path@[i as int], path@[i as int + 1]),
                    forall|b: int|
                        i < b < k ==> #[trigger] spec_canonical(path@[b], path@[b + 1]) != (
                        c0,
                        c1,
                        ),
                decreases nhops - k,
            {
                let (d0, d1) = if path[k] < path[k + 1] {
                    (path[k], path[k + 1])
                } else {
                    (path[k + 1], path[k])
                };
                if c0 == d0 && c1 == d1 {
                    proof {
                        assert(spec_canonical(path@[i as int], path@[i as int + 1])
                            == spec_canonical(path@[k as int], path@[k as int + 1]));
                        assert(spec_path_duplicates(path@));
                    }
                    return Err(
                        RaumFiRouterError::LibraryError(RaumFiLibraryError::InvalidPath),
                    );
                }
                k = k + 1;
            }
            i = i + 1;
        }
        proof {
            assert(!spec_path_duplicates(path@));
        }
        let mut i: usize = 0;
        while i < nhops
            invariant
                pairs_wf(pairs@),
                n == path@.len(),
                nhops == n - 1,
                2 <= n,
                amounts@.len() == n,
                0 <= i <= nhops,
                forall|i2: int| 0 <= i2 < amounts@.len() ==> amounts@[i2] >= 0,
                !spec_path_duplicates(path@),
                forall|k: int|
                    0 <= k < i ==> (match #[trigger] spec_hop_pair_index(pairs@, path@, k) {
                        None => true,
                        Some(j) => {
                            let p = pairs@[j];
                            let rin: int = if path@[k] == spec_canonical(
                                path@[k],
                                path@[k + 1],
                            ).0 {
                                p.reserve0 as int
                            } else {
                                p.reserve1 as int
                            };
                            rin + seq_as_int(amounts@)[k] <= i128::MAX
                        },
                    }),
            decreases nhops - i,
        {
            let (c0, c1) = if path[i] < path[i + 1] {
                (path[i], path[i + 1])
            } else {
                (path[i + 1], path[i])
            };
            proof {
                assert((c0, c1) == spec_canonical(path@[i as int], path@[i as int + 1]));
                assert(seq_as_int(amounts@)[i as int] == amounts@[i as int]);
            }
            match find_pair_index(pairs, c0, c1) {
                None => {},
                Some(j) => {
                    proof {
                        assert(spec_hop_pair_index(pairs@, path@, i as int) == Some(j as int));
                    }
                    let rin = if path[i] == c0 {
                        pairs[j].reserve0
                    } else {
                        pairs[j].reserve1
                    };
                    match rin.checked_add(amounts[i]) {
                        Some(_) => {},
                        None => {
                            proof {
                                assert(!spec_hops_in_range(
                                    pairs@,
                                    seq_as_int(amounts@),
                                    path@,
                                ));
                            }
                            return Err(
                                RaumFiRouterError::PairError(RaumFiPairError::Overflow),
                            );
                        },
                    }
                },
            }
            i = i + 1;
        }
        Ok(())
    }

    /// Swap an exact input along a path for as much output as the pairs
    /// give, but no less than the floor; returns the whole amounts chain.
    /// Fails atomically.
    #[verifier::rlimit(100)]
    #[verifier::spinoff_prover]
    pub fn swap_exact_tokens_for_tokens(
        pairs: &mut Vec<RaumFiPair>,
        amount_in: i128,
        amount_out_min: i128,
        path: &Vec<u64>,
        to: u64,
        deadline: u64,
        now: u64,
    ) -> (r: Result<Vec<i128>, RaumFiRouterError>)
        requires
            pairs_wf(old(pairs)@),
        ensures
            pairs_wf(final(pairs)@),
            final(pairs)@.len() == old(pairs)@.len(),
            forall|j: int|
                0 <= j < old(pairs)@.len() ==> {
                    &&& (#[trigger] final(pairs)@[j]).same_identity(old(pairs)@[j])
                    &&& final(pairs)@[j].token == old(pairs)@[j].token
                    &&& final(pairs)@[j].k_last == old(pairs)@[j].k_last
                },
            r is Err ==> final(pairs)@ == old(pairs)@,
            now > deadline ==> r == Err::<Vec<i128>, _>(RaumFiRouterError::DeadlineExpired),
            now <= deadline ==> (match spec_get_amounts_out(
                old(pairs)@,
                amount_in as int,
                path@,
            ) {
                Err(e) => r == Err::<Vec<i128>, _>(RaumFiRouterError::LibraryError(e)),
                Ok(sq) => {
                    if sq.last() < amount_out_min {
                        r == Err::<Vec<i128>, _>(RaumFiRouterError::InsufficientOutputAmount)
                    } else if spec_path_duplicates(path@) {
                        r == Err::<Vec<i128>, _>(
                            RaumFiRouterError::LibraryError(RaumFiLibraryError::InvalidPath),
                        )
                    } else if !spec_hops_in_range(old(pairs)@, sq, path@) {
                        r == Err::<Vec<i128>, _>(
                            RaumFiRouterError::PairError(RaumFiPairError::Overflow),
                        )
                    } else {
                        &&& (r is Err ==> (exists|i: int|
                            0 <= i < path@.len() - 1 && spec_hop_result(
                                old(pairs)@,
                                sq,
                                path@,
                                to,
                                i,
                            ) == Err::<(int, int, int), _>(r->Err_0)))
                        &&& (r is Ok ==> {
                            &&& r->Ok_0@.len() == sq.len()
                            &&& (forall|k: int| 0 <= k < sq.len() ==> r->Ok_0@[k] == sq[k])
                            &&& (forall|i: int|
                                0 <= i < path@.len() - 1 ==> {
                                    let step = #[trigger] spec_hop_result(
                                        old(pairs)@,
                                        sq,
                                        path@,
                                        to,
                                        i,
                                    );
                                    step is Ok && final(pairs)@[step->Ok_0.0] == (RaumFiPair {
                                        reserve0: step->Ok_0.1 as i128,
                                        reserve1: step->Ok_0.2 as i128,
                                        ..old(pairs)@[step->Ok_0.0]
                                    })
                                })
                            &&& (forall|j: int|
                                0 <= j < old(pairs)@.len() && (forall|i: int|
                                    0 <= i < path@.len() - 1 ==> spec_hop_pair_index(
                                        old(pairs)@,
                                        path@,
                                        i,
                                    ) != Some(j)) ==> final(pairs)@[j] == old(pairs)@[j])
                        })
                    }
                },
            }),
    {
        if now > deadline {
            return Err(RaumFiRouterError::DeadlineExpired);
        }
        let amounts = match crate::library::get_amounts_out(pairs, amount_in, path) {
            Ok(a) => a,
            Err(e) => {
                return Err(RaumFiRouterError::LibraryError(e));
            },
        };
        let last = amounts[amounts.len() - 1];
        if last < amount_out_min {
            return Err(RaumFiRouterError::InsufficientOutputAmount);
        }
        proof {
            let sq = spec_get_amounts_out(pairs@, amount_in as int, path@)->Ok_0;
            assert(amount_in > 0);
            crate::library::lemma_amounts_out_from_shape(pairs@, amount_in as int, path@);
            crate::library::lemma_amounts_out_from_nonneg(pairs@, amount_in as int, path@);
            assert forall|k: int| 0 <= k < amounts@.len() implies amounts@[k] >= 0 by {
                assert(amounts@[k] == sq[k]);
            }
            assert(seq_as_int(amounts@) =~= sq);
        }
        match Self::check_hops(pairs, &amounts, path) {
            Ok(_) => {},
            Err(e) => {
                return Err(e);
            },
        }
        match Self::_swap(pairs, &amounts, path, to) {
            Ok(_) => Ok(amounts),
            Err(e) => Err(e),
        }
    }

    /// Swap as little input as the pairs demand for an exact output, but no
    /// more than the ceiling; returns the whole amounts chain. Fails
    /// atomically.
    #[verifier::rlimit(100)]
    #[verifier::spinoff_prover]
    pub fn swap_tokens_for_exact_tokens(
        pairs: &mut Vec<RaumFiPair>,
        amount_out: i128,
        amount_in_max: i128,
        path: &Vec<u64>,
        to: u64,
        deadline: u64,
        now: u64,
    ) -> (r: Result<Vec<i128>, RaumFiRouterError>)
        requires
            pairs_wf(old(pairs)@),
        ensures
            pairs_wf(final(pairs)@),
            final(pairs)@.len() == old(pairs)@.len(),
            forall|j: int|
                0 <= j < old(pairs)@.len() ==> {
                    &&& (#[trigger] final(pairs)@[j]).same_identity(old(pairs)@[j])
                    &&& final(pairs)@[j].token == old(pairs)@[j].token
                    &&& final(pairs)@[j].k_last == old(pairs)@[j].k_last
                },
            r is Err ==> final(pairs)@ == old(pairs)@,
            now > deadline ==> r == Err::<Vec<i128>, _>(RaumFiRouterError::DeadlineExpired),
            now <= deadline ==> (match spec_get_amounts_in(
                old(pairs)@,
                amount_out as int,
                path@,
            ) {
                Err(e) => r == Err::<Vec<i128>, _>(RaumFiRouterError::LibraryError(e)),
                Ok(sq) => {
                    if sq[0] > amount_in_max {
                        r == Err::<Vec<i128>, _>(RaumFiRouterError::ExcessiveInputAmount)
                    } else if spec_path_duplicates(path@) {
                        r == Err::<Vec<i128>, _>(
                            RaumFiRouterError::LibraryError(RaumFiLibraryError::InvalidPath),
                        )
                    } else if !spec_hops_in_range(old(pairs)@, sq, path@) {
                        r == Err::<Vec<i128>, _>(
                            RaumFiRouterError::PairError(RaumFiPairError::Overflow),
                        )
                    } else {
                        &&& (r is Err ==> (exists|i: int|
                            0 <= i < path@.len() - 1 && spec_hop_result(
                                old(pairs)@,
                                sq,
                                path@,
                                to,
                                i,
                            ) == Err::<(int, int, int), _>(r->Err_0)))
                        &&& (r is Ok ==> {
                            &&& r->Ok_0@.len() == sq.len()
                            &&& (forall|k: int| 0 <= k < sq.len() ==> r->Ok_0@[k] == sq[k])
                            &&& (forall|i: int|
                                0 <= i < path@.len() - 1 ==> {
                                    let step = #[trigger] spec_hop_result(
                                        old(pairs)@,
                                        sq,
                                        path@,
                                        to,
                                        i,
                                    );
                                    step is Ok && final(pairs)@[step->Ok_0.0] == (RaumFiPair {
                                        reserve0: step->Ok_0.1 as i128,
                                        reserve1: step->Ok_0.2 as i128,
                                        ..old(pairs)@[step->Ok_0.0]
                                    })
                                })
                            &&& (forall|j: int|
                                0 <= j < old(pairs)@.len() && (forall|i: int|
                                    0 <= i < path@.len() - 1 ==> spec_hop_pair_index(
                                        old(pairs)@,
                                        path@,
                                        i,
                                    ) != Some(j)) ==> final(pairs)@[j] == old(pairs)@[j])
                        })
                    }
                },
            }),
    {
        if now > deadline {
            return Err(RaumFiRouterError::DeadlineExpired);
        }
        let amounts = match crate::library::get_amounts_in(pairs, amount_out, path) {
            Ok(a) => a,
            Err(e) => {
                return Err(RaumFiRouterError::LibraryError(e));
            },
        };
        let first = amounts[0];
        if first > amount_in_max {
            return Err(RaumFiRouterError::ExcessiveInputAmount);
        }
        proof {
            let sq = spec_get_amounts_in(pairs@, amount_out as int, path@)->Ok_0;
            crate::library::lemma_amounts_in_target_positive(pairs@, amount_out as int, path@);
            crate::library::lemma_amounts_in_to_shape(pairs@, amount_out as int, path@);
            crate::library::lemma_amounts_in_to_nonneg(pairs@, amount_out as int, path@);
            assert forall|k: int| 0 <= k < amounts@.len() implies amounts@[k] >= 0 by {
                assert(amounts@[k] == sq[k]);
            }
            assert(seq_as_int(amounts@) =~= sq);
        }
        match Self::check_hops(pairs, &amounts, path) {
            Ok(_) => {},
            Err(e) => {
                return Err(e);
            },
        }
        match Self::_swap(pairs, &amounts, path, to) {
            Ok(_) => Ok(amounts),
            Err(e) => Err(e),
        }
    }
}

} // verus!
