//! Exact-integer pricing and liquidity math of the constant-product market
//! maker, together with the chained multi-hop amount calculations.
//!
//! All quantities are `i128`; every operation is overflow-checked and every
//! division is guarded, so a failure is always a typed error and never a
//! silent wrap or a panic.

use vstd::prelude::*;

use crate::errors::RaumFiLibraryError;
use crate::factory::spec_canonical;
use crate::pair::RaumFiPair;

verus! {

// ---------------------------------------------------------------------------
// Specification-level arithmetic helpers
// ---------------------------------------------------------------------------

/// Ceiling division for a positive divisor.
pub open spec fn spec_div_ceil(n: int, d: int) -> int {
    if n % d == 0 {
        n / d
    } else {
        n / d + 1
    }
}

/// The swap fee withheld from an input of `a`: three parts per thousand,
/// rounded down, but never less than one unit.
pub open spec fn spec_fee(a: int) -> int {
    if 3 * a / 1000 == 0 {
        1
    } else {
        3 * a / 1000
    }
}

/// The part of an input of `a` that remains after the fee.
pub open spec fn spec_net_in(a: int) -> int {
    a - spec_fee(a)
}

/// The output owed for an input of `a` against reserves `rin`/`rout`:
/// the fee-reduced input priced by the constant-product rule, rounded down.
pub open spec fn spec_amount_out(a: int, rin: int, rout: int) -> int {
    spec_net_in(a) * rout / (rin + spec_net_in(a))
}

/// The input demanded for an output of `aout` against reserves `rin`/`rout`:
/// a ceiling division plus one more unit of deliberate conservatism.
pub open spec fn spec_amount_in(aout: int, rin: int, rout: int) -> int {
    spec_div_ceil(rin * aout * 1000, (rout - aout) * 997) + 1
}

/// The truncated principal square root of `x`.
pub open spec fn spec_sqrt(x: nat) -> nat
    decreases x,
{
    if x == 0 {
        0
    } else {
        let s = spec_sqrt((x - 1) as nat);
        if (s + 1) * (s + 1) <= x {
            s + 1
        } else {
            s
        }
    }
}

/// `spec_sqrt` is bounded by its defining inequalities.
pub proof fn lemma_sqrt_bounds(x: nat)
    ensures
        spec_sqrt(x) * spec_sqrt(x) <= x,
        x < (spec_sqrt(x) + 1) * (spec_sqrt(x) + 1),
    decreases x,
{
    let r = spec_sqrt(x);
    if x == 0 {
        assert(r == 0);
        assert(r * r <= x && x < (r + 1) * (r + 1)) by (nonlinear_arith)
            requires
                r == 0,
                x == 0,
        ;
    } else {
        let s = spec_sqrt((x - 1) as nat);
        lemma_sqrt_bounds((x - 1) as nat);
        assert(s * s <= x - 1);
        assert(x - 1 < (s + 1) * (s + 1));
        if (s + 1) * (s + 1) <= x {
            assert(r == s + 1);
            assert(r * r <= x);
            assert(x < (r + 1) * (r + 1)) by (nonlinear_arith)
                requires
                    x - 1 < (s + 1) * (s + 1),
                    s >= 0,
                    r == s + 1,
            ;
        } else {
            assert(r == s);
            assert(r * r <= x);
            assert(x < (r + 1) * (r + 1));
        }
    }
}

/// Any value within the square-root bounds is the square root.
pub proof fn lemma_sqrt_unique(x: nat, r: nat)
    requires
        r * r <= x,
        x < (r + 1) * (r + 1),
    ensures
        r == spec_sqrt(x),
{
    lemma_sqrt_bounds(x);
    let s = spec_sqrt(x);
    assert(r == s) by (nonlinear_arith)
        requires
            r * r <= x,
            x < (r + 1) * (r + 1),
            s * s <= x,
            x < (s + 1) * (s + 1),
            r >= 0,
            s >= 0;
}

// ---------------------------------------------------------------------------
// Trusted bridge to the integer square root
// ---------------------------------------------------------------------------

/// Relies on `num_integer::Roots::sqrt` for `i128`: the truncated principal
/// square root of a non-negative integer, the unique `r >= 0` with
/// `r * r <= x < (r + 1) * (r + 1)`.
#[verifier::external_body]
fn integer_sqrt(x: i128) -> (r: i128)
    requires
        0 <= x,
    ensures
        0 <= r,
        r * r <= x,
        x < (r + 1) * (r + 1),
{
    num_integer::Roots::sqrt(&x)
}

/// Verified square root: the bridge's bounds pin the result to `spec_sqrt`.
pub fn sqrt_i128(x: i128) -> (r: i128)
    requires
        0 <= x,
    ensures
        r == spec_sqrt(x as nat),
        0 <= r,
{
    let r = integer_sqrt(x);
    proof {
        lemma_sqrt_unique(x as nat, r as nat);
    }
    r
}

// ---------------------------------------------------------------------------
// Checked ceiling division
// ---------------------------------------------------------------------------

/// Division rounding away from zero's floor: the checked ceiling.
pub trait CheckedCeilingDiv {
    /// Divide rounding up, `None` when the division cannot be performed.
    fn checked_ceiling_div(self, divisor: i128) -> (r: Option<i128>)
        ensures
            divisor == 0 ==> r is None,
    ;
}

impl CheckedCeilingDiv for i128 {
    fn checked_ceiling_div(self, divisor: i128) -> (r: Option<i128>)
        ensures
            divisor == 0 ==> r is None,
            self >= 0 && divisor > 0 ==> r == Some(spec_div_ceil(self as int, divisor as int) as i128),
    {
        if divisor == 0 {
            return None;
        }
        proof {
            if self >= 0 && divisor > 0 {
                assert(0 <= ((self as int) / (divisor as int)) <= self) by (nonlinear_arith)
                    requires
                        self >= 0,
                        divisor > 0,
                ;
                assert(0 <= ((self as int) % (divisor as int)) < divisor) by (nonlinear_arith)
                    requires
                        self >= 0,
                        divisor > 0,
                ;
            }
        }
        let quotient = match self.checked_div(divisor) {
            Some(q) => q,
            None => {
                return None;
            },
        };
        let remainder = match self.checked_rem(divisor) {
            Some(m) => m,
            None => {
                return None;
            },
        };
        proof {
            if self >= 0 && divisor > 0 {
                if self == 0 {
                    assert((self as int) / (divisor as int) == 0 && (self as int) % (
                    divisor as int) == 0) by (nonlinear_arith)
                        requires
                            self == 0,
                            divisor > 0,
                    ;
                }
                assert(quotient == (self as int) / (divisor as int));
                assert(remainder == (self as int) % (divisor as int));
            }
        }
        if remainder == 0 {
            Some(quotient)
        } else {
            proof {
                if self >= 0 && divisor > 0 {
                    assert(quotient < i128::MAX) by (nonlinear_arith)
                        requires
                            self >= 0,
                            divisor > 0,
                            quotient == self as int / divisor as int,
                            remainder == self as int % divisor as int,
                            remainder != 0,
                            self <= i128::MAX,
                    ;
                }
            }
            quotient.checked_add(1)
        }
    }
}

// ---------------------------------------------------------------------------
// Token ordering
// ---------------------------------------------------------------------------

/// Order two token identities canonically, rejecting an identical pair.
pub fn sort_tokens(token_a: u64, token_b: u64) -> (r: Result<(u64, u64), RaumFiLibraryError>)
    ensures
        token_a == token_b ==> r == Err::<(u64, u64), _>(RaumFiLibraryError::IdenticalAddresses),
        token_a != token_b ==> {
            &&& r is Ok
            &&& r->Ok_0.0 < r->Ok_0.1
            &&& (r->Ok_0 == (token_a, token_b) || r->Ok_0 == (token_b, token_a))
        },
{
    if token_a == token_b {
        return Err(RaumFiLibraryError::IdenticalAddresses);
    }
    if token_a < token_b {
        Ok((token_a, token_b))
    } else {
        Ok((token_b, token_a))
    }
}

// ---------------------------------------------------------------------------
// Quoting
// ---------------------------------------------------------------------------

/// Price an amount of one asset in the other at the current reserve ratio,
/// rounded down.
pub fn calculate_quote(amount_a: i128, reserve_a: i128, reserve_b: i128) -> (r: Result<
    i128,
    RaumFiLibraryError,
>)
    ensures
        amount_a == 0 ==> r == Err::<i128, _>(RaumFiLibraryError::InsufficientAmount),
        amount_a != 0 && (reserve_a == 0 || reserve_b == 0) ==> r == Err::<i128, _>(
            RaumFiLibraryError::InsufficientLiquidity,
        ),
        amount_a > 0 && reserve_a > 0 && reserve_b > 0 ==> r == (if amount_a * reserve_b
            > i128::MAX {
            Err::<i128, _>(RaumFiLibraryError::Overflow)
        } else {
            Ok((amount_a * reserve_b / (reserve_a as int)) as i128)
        }),
{
    if amount_a == 0 {
        return Err(RaumFiLibraryError::InsufficientAmount);
    }
    if reserve_a == 0 || reserve_b == 0 {
        return Err(RaumFiLibraryError::InsufficientLiquidity);
    }
    let product = match amount_a.checked_mul(reserve_b) {
        Some(p) => p,
        None => {
            return Err(RaumFiLibraryError::Overflow);
        },
    };
    match product.checked_div(reserve_a) {
        Some(q) => Ok(q),
        None => Err(RaumFiLibraryError::DivisionByZero),
    }
}

/// Maximum output of a swap: the input less the fee, priced by the
/// constant-product rule against the reserves, rounded down.
pub fn calculate_amount_out(amount_in: i128, reserve_in: i128, reserve_out: i128) -> (r: Result<
    i128,
    RaumFiLibraryError,
>)
    ensures
        amount_in <= 0 ==> r == Err::<i128, _>(RaumFiLibraryError::InsufficientAmount),
        amount_in > 0 && (reserve_in <= 0 || reserve_out <= 0) ==> r == Err::<i128, _>(
            RaumFiLibraryError::InsufficientLiquidity,
        ),
        amount_in > 0 && reserve_in > 0 && reserve_out > 0 ==> r == (if 3 * amount_in > i128::MAX {
            Err::<i128, _>(RaumFiLibraryError::Overflow)
        } else if spec_net_in(amount_in as int) * reserve_out > i128::MAX {
            Err::<i128, _>(RaumFiLibraryError::Overflow)
        } else if reserve_in + spec_net_in(amount_in as int) > i128::MAX {
            Err::<i128, _>(RaumFiLibraryError::Overflow)
        } else {
            Ok(spec_amount_out(amount_in as int, reserve_in as int, reserve_out as int) as i128)
        }),
        r is Ok && amount_in > 0 && reserve_in > 0 && reserve_out > 0 ==> 0 <= r->Ok_0
            < reserve_out,
        ({
            let step = spec_calculate_amount_out(amount_in as int, reserve_in as int, reserve_out as int);
            match step {
                Ok(v) => r == Ok::<i128, RaumFiLibraryError>(v as i128),
                Err(e) => r == Err::<i128, RaumFiLibraryError>(e),
            }
        }),
{
    if amount_in <= 0 {
        return Err(RaumFiLibraryError::InsufficientAmount);
    }
    if reserve_in <= 0 || reserve_out <= 0 {
        return Err(RaumFiLibraryError::InsufficientLiquidity);
    }
    let tripled = match amount_in.checked_mul(3) {
        Some(t) => t,
        None => {
            return Err(RaumFiLibraryError::Overflow);
        },
    };
    let fee_floor = match tripled.checked_div(1000) {
        Some(f) => f,
        None => {
            return Err(RaumFiLibraryError::DivisionByZero);
        },
    };
    let fee = if fee_floor == 0 {
        1
    } else {
        fee_floor
    };
    proof {
        assert(0 <= 3 * (amount_in as int) / 1000 <= amount_in) by (nonlinear_arith)
            requires
                amount_in > 0,
        ;
        assert(fee == spec_fee(amount_in as int));
    }
    let net = match amount_in.checked_sub(fee) {
        Some(n) => n,
        None => {
            return Err(RaumFiLibraryError::Overflow);
        },
    };
    let numerator = match net.checked_mul(reserve_out) {
        Some(n) => n,
        None => {
            return Err(RaumFiLibraryError::Overflow);
        },
    };
    let denominator = match reserve_in.checked_add(net) {
        Some(d) => d,
        None => {
            return Err(RaumFiLibraryError::Overflow);
        },
    };
    proof {
        assert(0 <= (numerator as int) / (denominator as int) < reserve_out) by (nonlinear_arith)
            requires
                numerator == net * reserve_out,
                denominator == reserve_in + net,
                net >= 0,
                reserve_in > 0,
                reserve_out > 0,
        ;
    }
    match numerator.checked_div(denominator) {
        Some(q) => Ok(q),
        None => Err(RaumFiLibraryError::DivisionByZero),
    }
}

/// Input demanded for a desired output: the inverse pricing with a ceiling
/// division and one further unit of conservatism, so that the quoted input
/// always covers the fee.
pub fn calculate_amount_in(amount_out: i128, reserve_in: i128, reserve_out: i128) -> (r: Result<
    i128,
    RaumFiLibraryError,
>)
    ensures
        amount_out <= 0 ==> r == Err::<i128, _>(RaumFiLibraryError::InsufficientAmount),
        amount_out > 0 && (reserve_in <= 0 || reserve_out <= 0) ==> r == Err::<i128, _>(
            RaumFiLibraryError::InsufficientLiquidity,
        ),
        amount_out > 0 && reserve_in > 0 && reserve_out > 0 && amount_out >= reserve_out ==> r
            == Err::<i128, _>(RaumFiLibraryError::InsufficientLiquidity),
        amount_out > 0 && reserve_in > 0 && 0 < amount_out < reserve_out ==> r == (if reserve_in
            * amount_out > i128::MAX || reserve_in * amount_out * 1000 > i128::MAX {
            Err::<i128, _>(RaumFiLibraryError::Overflow)
        } else if (reserve_out - amount_out) * 997 > i128::MAX {
            Err::<i128, _>(RaumFiLibraryError::Overflow)
        } else if spec_amount_in(amount_out as int, reserve_in as int, reserve_out as int)
            > i128::MAX {
            Err::<i128, _>(RaumFiLibraryError::Overflow)
        } else {
            Ok(spec_amount_in(amount_out as int, reserve_in as int, reserve_out as int) as i128)
        }),
        ({
            let step = spec_calculate_amount_in(amount_out as int, reserve_in as int, reserve_out as int);
            match step {
                Ok(v) => r == Ok::<i128, RaumFiLibraryError>(v as i128),
                Err(e) => r == Err::<i128, RaumFiLibraryError>(e),
            }
        }),
{
    if amount_out <= 0 {
        return Err(RaumFiLibraryError::InsufficientAmount);
    }
    if reserve_in <= 0 || reserve_out <= 0 {
        return Err(RaumFiLibraryError::InsufficientLiquidity);
    }
    if amount_out >= reserve_out {
        return Err(RaumFiLibraryError::InsufficientLiquidity);
    }
    let scaled = match reserve_in.checked_mul(amount_out) {
        Some(p) => p,
        None => {
            return Err(RaumFiLibraryError::Overflow);
        },
    };
    let numerator = match scaled.checked_mul(1000) {
        Some(n) => n,
        None => {
            return Err(RaumFiLibraryError::Overflow);
        },
    };
    let gap = match reserve_out.checked_sub(amount_out) {
        Some(g) => g,
        None => {
            return Err(RaumFiLibraryError::Overflow);
        },
    };
    let denominator = match gap.checked_mul(997) {
        Some(d) => d,
        None => {
            return Err(RaumFiLibraryError::Overflow);
        },
    };
    let division_result = match numerator.checked_ceiling_div(denominator) {
        Some(q) => q,
        None => {
            return Err(RaumFiLibraryError::DivisionByZero);
        },
    };
    match division_result.checked_add(1) {
        Some(v) => Ok(v),
        None => Err(RaumFiLibraryError::Overflow),
    }
}

/// The constant product of two reserves.
pub fn calculate_k(reserve_a: i128, reserve_b: i128) -> (r: Result<i128, RaumFiLibraryError>)
    ensures
        r == (if reserve_a * reserve_b > i128::MAX || reserve_a * reserve_b < i128::MIN {
            Err::<i128, _>(RaumFiLibraryError::Overflow)
        } else {
            Ok((reserve_a * reserve_b) as i128)
        }),
{
    match reserve_a.checked_mul(reserve_b) {
        Some(k) => Ok(k),
        None => Err(RaumFiLibraryError::Overflow),
    }
}

/// Split a deposit between the two sides of a pool so that it matches the
/// current reserve ratio: prefer the full desired A amount, otherwise fall
/// back to the full desired B amount, and respect both minimums.
pub fn optimal_liquidity(
    amount_a_desired: i128,
    amount_b_desired: i128,
    amount_a_min: i128,
    amount_b_min: i128,
    reserve_a: i128,
    reserve_b: i128,
) -> (r: Result<(i128, i128), RaumFiLibraryError>)
    ensures
        reserve_a == 0 && reserve_b == 0 ==> r == Ok::<_, RaumFiLibraryError>(
            (amount_a_desired, amount_b_desired),
        ),
        !(reserve_a == 0 && reserve_b == 0) && amount_a_desired == 0 ==> r == Err::<(i128, i128), _>(
            RaumFiLibraryError::InsufficientAmount,
        ),
        !(reserve_a == 0 && reserve_b == 0) && amount_a_desired != 0 && (reserve_a == 0 || reserve_b
            == 0) ==> r == Err::<(i128, i128), _>(RaumFiLibraryError::InsufficientLiquidity),
        amount_a_desired > 0 && amount_b_desired >= 0 && reserve_a > 0 && reserve_b > 0 ==> r == (
        if amount_a_desired * reserve_b > i128::MAX {
            Err::<(i128, i128), _>(RaumFiLibraryError::Overflow)
        } else {
            let b_optimal = amount_a_desired * reserve_b / (reserve_a as int);
            if b_optimal <= amount_b_desired {
                if b_optimal < amount_b_min {
                    Err::<(i128, i128), _>(RaumFiLibraryError::InsufficientBAmount)
                } else {
                    Ok((amount_a_desired, b_optimal as i128))
                }
            } else {
                if amount_b_desired == 0 {
                    Err::<(i128, i128), _>(RaumFiLibraryError::InsufficientAmount)
                } else if amount_b_desired * reserve_a > i128::MAX {
                    Err::<(i128, i128), _>(RaumFiLibraryError::Overflow)
                } else {
                    let a_optimal = amount_b_desired * reserve_a / (reserve_b as int);
                    if a_optimal < amount_a_min {
                        Err::<(i128, i128), _>(RaumFiLibraryError::InsufficientAAmount)
                    } else {
                        Ok((a_optimal as i128, amount_b_desired))
                    }
                }
            }
        }),
        r is Ok && amount_a_desired > 0 && amount_b_desired > 0 && reserve_a > 0 && reserve_b > 0
            ==> r->Ok_0.0 <= amount_a_desired && r->Ok_0.1 <= amount_b_desired,
{
    if reserve_a == 0 && reserve_b == 0 {
        return Ok((amount_a_desired, amount_b_desired));
    }
    let amount_b_optimal = match calculate_quote(amount_a_desired, reserve_a, reserve_b) {
        Ok(b) => b,
        Err(e) => {
            return Err(e);
        },
    };
    if amount_b_optimal <= amount_b_desired {
        if amount_b_optimal < amount_b_min {
            return Err(RaumFiLibraryError::InsufficientBAmount);
        }
        return Ok((amount_a_desired, amount_b_optimal));
    }
    let amount_a_optimal = match calculate_quote(amount_b_desired, reserve_b, reserve_a) {
        Ok(a) => a,
        Err(e) => {
            return Err(e);
        },
    };
    proof {
        if amount_a_desired > 0 && amount_b_desired > 0 && reserve_a > 0 && reserve_b > 0 {
            assert(amount_b_desired * reserve_a / (reserve_b as int) < amount_a_desired)
                by (nonlinear_arith)
                requires
                    amount_a_desired > 0,
                    amount_b_desired > 0,
                    reserve_a > 0,
                    reserve_b > 0,
                    amount_a_desired * reserve_b / (reserve_a as int) > amount_b_desired,
            ;
        }
    }
    if amount_a_optimal < amount_a_min {
        return Err(RaumFiLibraryError::InsufficientAAmount);
    }
    Ok((amount_a_optimal, amount_b_desired))
}

/// The loss of a trade against the instantaneous mid price, in basis points.
#[verifier::rlimit(50)]
#[verifier::spinoff_prover]
pub fn calculate_price_impact(
    amount_in: i128,
    amount_out: i128,
    reserve_in: i128,
    reserve_out: i128,
) -> (r: Result<i128, RaumFiLibraryError>)
    ensures
        amount_in > 0 && amount_out > 0 && reserve_in > 0 && reserve_out > 0 ==> {
            let unit = 1000000000000000000int;
            if unit * reserve_out > i128::MAX {
                r == Err::<i128, _>(RaumFiLibraryError::Overflow)
            } else if unit * amount_out > i128::MAX {
                r == Err::<i128, _>(RaumFiLibraryError::Overflow)
            } else {
                let mid = unit * reserve_out / (reserve_in as int);
                let execution = unit * amount_out / (amount_in as int);
                if execution <= mid {
                    if (mid - execution) * 10000 > i128::MAX {
                        r == Err::<i128, _>(RaumFiLibraryError::Overflow)
                    } else if mid == 0 {
                        r == Err::<i128, _>(RaumFiLibraryError::DivisionByZero)
                    } else {
                        r == Ok::<_, RaumFiLibraryError>(
                            ((mid - execution) * 10000 / mid) as i128,
                        )
                    }
                } else {
                    if (mid - execution) * 10000 < i128::MIN {
                        r == Err::<i128, _>(RaumFiLibraryError::Overflow)
                    } else if mid == 0 {
                        r == Err::<i128, _>(RaumFiLibraryError::DivisionByZero)
                    } else {
                        r == Ok::<_, RaumFiLibraryError>(
                            (0 - (execution - mid) * 10000 / (mid as int)) as i128,
                        )
                    }
                }
            }
        },
{
    let unit: i128 = 1000000000000000000;
    let mid_price = match calculate_quote(unit, reserve_in, reserve_out) {
        Ok(m) => m,
        Err(e) => {
            return Err(e);
        },
    };
    let execution_price = match calculate_quote(unit, amount_in, amount_out) {
        Ok(x) => x,
        Err(e) => {
            return Err(e);
        },
    };
    let difference = match mid_price.checked_sub(execution_price) {
        Some(d) => d,
        None => {
            return Err(RaumFiLibraryError::Overflow);
        },
    };
    let scaled = match difference.checked_mul(10000) {
        Some(s) => s,
        None => {
            return Err(RaumFiLibraryError::Overflow);
        },
    };
    proof {
        if mid_price > 0 && difference >= 0 {
            assert(0 <= (scaled as int) / (mid_price as int) <= scaled) by (nonlinear_arith)
                requires
                    scaled >= 0,
                    mid_price > 0,
            ;
        }
        if mid_price > 0 && difference < 0 {
            assert((scaled as int) / (mid_price as int) <= 0) by (nonlinear_arith)
                requires
                    scaled < 0,
                    mid_price > 0,
            ;
        }
    }
    match scaled.checked_div(mid_price) {
        Some(q) => Ok(q),
        None => Err(RaumFiLibraryError::DivisionByZero),
    }
}

/// Pool shares owed for a deposit: the geometric mean less the permanently
/// locked floor on the first deposit, the pro-rata minimum afterwards.
pub fn calculate_liquidity_minted(
    total_supply: i128,
    amount_a: i128,
    amount_b: i128,
    reserve_a: i128,
    reserve_b: i128,
) -> (r: Result<i128, RaumFiLibraryError>)
    ensures
        total_supply == 0 ==> r == (if amount_a * amount_b > i128::MAX || amount_a * amount_b
            < i128::MIN {
            Err::<i128, _>(RaumFiLibraryError::Overflow)
        } else if amount_a * amount_b < 0 {
            Err::<i128, _>(RaumFiLibraryError::InsufficientLiquidityMinted)
        } else {
            let l = spec_sqrt((amount_a * amount_b) as nat) - 1000;
            if l <= 0 {
                Err::<i128, _>(RaumFiLibraryError::InsufficientLiquidityMinted)
            } else {
                Ok(l as i128)
            }
        }),
        total_supply > 0 && amount_a >= 0 && amount_b >= 0 && reserve_a > 0 && reserve_b > 0 ==> r
            == (if amount_a * total_supply > i128::MAX {
            Err::<i128, _>(RaumFiLibraryError::Overflow)
        } else if amount_b * total_supply > i128::MAX {
            Err::<i128, _>(RaumFiLibraryError::Overflow)
        } else {
            let l = vstd::math::min(
                amount_a * total_supply / (reserve_a as int),
                amount_b * total_supply / (reserve_b as int),
            );
            if l <= 0 {
                Err::<i128, _>(RaumFiLibraryError::InsufficientLiquidityMinted)
            } else {
                Ok(l as i128)
            }
        }),
{
    let liquidity: i128;
    if total_supply == 0 {
        let product = match amount_a.checked_mul(amount_b) {
            Some(p) => p,
            None => {
                return Err(RaumFiLibraryError::Overflow);
            },
        };
        if product < 0 {
            return Err(RaumFiLibraryError::InsufficientLiquidityMinted);
        }
        let root = sqrt_i128(product);
        proof {
            lemma_sqrt_bounds(product as nat);
            assert(root * root <= product) by (nonlinear_arith)
                requires
                    root == spec_sqrt(product as nat),
                    spec_sqrt(product as nat) * spec_sqrt(product as nat) <= product,
            ;
        }
        liquidity = root - 1000;
    } else {
        let scaled_a = match amount_a.checked_mul(total_supply) {
            Some(p) => p,
            None => {
                return Err(RaumFiLibraryError::Overflow);
            },
        };
        let liquidity_a = match scaled_a.checked_div(reserve_a) {
            Some(q) => q,
            None => {
                return Err(RaumFiLibraryError::DivisionByZero);
            },
        };
        let scaled_b = match amount_b.checked_mul(total_supply) {
            Some(p) => p,
            None => {
                return Err(RaumFiLibraryError::Overflow);
            },
        };
        let liquidity_b = match scaled_b.checked_div(reserve_b) {
            Some(q) => q,
            None => {
                return Err(RaumFiLibraryError::DivisionByZero);
            },
        };
        proof {
            if total_supply > 0 && amount_a >= 0 && amount_b >= 0 && reserve_a > 0 && reserve_b
                > 0 {
                assert(0 <= (scaled_a as int) / (reserve_a as int) <= scaled_a)
                    by (nonlinear_arith)
                    requires
                        scaled_a >= 0,
                        reserve_a > 0,
                ;
                assert(0 <= (scaled_b as int) / (reserve_b as int) <= scaled_b)
                    by (nonlinear_arith)
                    requires
                        scaled_b >= 0,
                        reserve_b > 0,
                ;
            }
        }
        liquidity = if liquidity_a < liquidity_b {
            liquidity_a
        } else {
            liquidity_b
        };
    }
    if liquidity <= 0 {
        return Err(RaumFiLibraryError::InsufficientLiquidityMinted);
    }
    Ok(liquidity)
}

/// Assets owed for burning pool shares: each reserve pro rata to the burned
/// share of the total supply, rounded down.
pub fn calculate_burn_amounts(
    liquidity: i128,
    total_supply: i128,
    reserve_a: i128,
    reserve_b: i128,
) -> (r: Result<(i128, i128), RaumFiLibraryError>)
    ensures
        liquidity > total_supply ==> r == Err::<(i128, i128), _>(
            RaumFiLibraryError::InsufficientTotalSupply,
        ),
        liquidity >= 0 && total_supply > 0 && liquidity <= total_supply && reserve_a >= 0
            && reserve_b >= 0 ==> r == (if liquidity * reserve_a > i128::MAX {
            Err::<(i128, i128), _>(RaumFiLibraryError::Overflow)
        } else if liquidity * reserve_b > i128::MAX {
            Err::<(i128, i128), _>(RaumFiLibraryError::Overflow)
        } else {
            let amount_a = liquidity * reserve_a / (total_supply as int);
            let amount_b = liquidity * reserve_b / (total_supply as int);
            if amount_a <= 0 || amount_b <= 0 {
                Err::<(i128, i128), _>(RaumFiLibraryError::InsufficientLiquidityBurned)
            } else {
                Ok((amount_a as i128, amount_b as i128))
            }
        }),
{
    if liquidity > total_supply {
        return Err(RaumFiLibraryError::InsufficientTotalSupply);
    }
    let scaled_a = match liquidity.checked_mul(reserve_a) {
        Some(p) => p,
        None => {
            return Err(RaumFiLibraryError::Overflow);
        },
    };
    let amount_a = match scaled_a.checked_div(total_supply) {
        Some(q) => q,
        None => {
            return Err(RaumFiLibraryError::DivisionByZero);
        },
    };
    let scaled_b = match liquidity.checked_mul(reserve_b) {
        Some(p) => p,
        None => {
            return Err(RaumFiLibraryError::Overflow);
        },
    };
    let amount_b = match scaled_b.checked_div(total_supply) {
        Some(q) => q,
        None => {
            return Err(RaumFiLibraryError::DivisionByZero);
        },
    };
    proof {
        if liquidity >= 0 && total_supply > 0 && reserve_a >= 0 && reserve_b >= 0 {
            assert(0 <= (scaled_a as int) / (total_supply as int) <= scaled_a)
                by (nonlinear_arith)
                requires
                    scaled_a >= 0,
                    total_supply > 0,
            ;
            assert(0 <= (scaled_b as int) / (total_supply as int) <= scaled_b)
                by (nonlinear_arith)
                requires
                    scaled_b >= 0,
                    total_supply > 0,
            ;
        }
    }
    if amount_a <= 0 || amount_b <= 0 {
        return Err(RaumFiLibraryError::InsufficientLiquidityBurned);
    }
    Ok((amount_a, amount_b))
}

// ---------------------------------------------------------------------------
// Live reserves and chained amounts
// ---------------------------------------------------------------------------

/// The decision mirror of `calculate_amount_out`.
pub open spec fn spec_calculate_amount_out(amount_in: int, reserve_in: int, reserve_out: int) -> Result<
    int,
    RaumFiLibraryError,
> {
    if amount_in <= 0 {
        Err(RaumFiLibraryError::InsufficientAmount)
    } else if reserve_in <= 0 || reserve_out <= 0 {
        Err(RaumFiLibraryError::InsufficientLiquidity)
    } else if 3 * amount_in > i128::MAX {
        Err(RaumFiLibraryError::Overflow)
    } else if spec_net_in(amount_in) * reserve_out > i128::MAX {
        Err(RaumFiLibraryError::Overflow)
    } else if reserve_in + spec_net_in(amount_in) > i128::MAX {
        Err(RaumFiLibraryError::Overflow)
    } else {
        Ok(spec_amount_out(amount_in, reserve_in, reserve_out))
    }
}

/// The decision mirror of `calculate_amount_in`.
pub open spec fn spec_calculate_amount_in(amount_out: int, reserve_in: int, reserve_out: int) -> Result<
    int,
    RaumFiLibraryError,
> {
    if amount_out <= 0 {
        Err(RaumFiLibraryError::InsufficientAmount)
    } else if reserve_in <= 0 || reserve_out <= 0 {
        Err(RaumFiLibraryError::InsufficientLiquidity)
    } else if amount_out >= reserve_out {
        Err(RaumFiLibraryError::InsufficientLiquidity)
    } else if reserve_in * amount_out > i128::MAX || reserve_in * amount_out * 1000 > i128::MAX {
        Err(RaumFiLibraryError::Overflow)
    } else if (reserve_out - amount_out) * 997 > i128::MAX {
        Err(RaumFiLibraryError::Overflow)
    } else if spec_amount_in(amount_out, reserve_in, reserve_out) > i128::MAX {
        Err(RaumFiLibraryError::Overflow)
    } else {
        Ok(spec_amount_in(amount_out, reserve_in, reserve_out))
    }
}

/// Every pair is well formed and no canonical asset pair occurs twice.
pub open spec fn pairs_wf(s: Seq<RaumFiPair>) -> bool {
    &&& forall|i: int| 0 <= i < s.len() ==> (#[trigger] s[i]).wf()
    &&& forall|i: int, j: int|
        0 <= i < j < s.len() ==> !((#[trigger] s[i]).token0 == (#[trigger] s[j]).token0
            && s[i].token1 == s[j].token1)
}

/// The index of the pair holding the given canonical asset pair.
pub open spec fn spec_lookup_pair(s: Seq<RaumFiPair>, token0: u64, token1: u64) -> Option<int>
    decreases s.len(),
{
    if s.len() == 0 {
        None
    } else if s.last().token0 == token0 && s.last().token1 == token1 {
        Some(s.len() - 1)
    } else {
        spec_lookup_pair(s.drop_last(), token0, token1)
    }
}

/// A missing canonical pair is found nowhere.
pub proof fn lemma_lookup_pair_absent(s: Seq<RaumFiPair>, token0: u64, token1: u64)
    requires
        forall|i: int|
            0 <= i < s.len() ==> !((#[trigger] s[i]).token0 == token0 && s[i].token1 == token1),
    ensures
        spec_lookup_pair(s, token0, token1) is None,
    decreases s.len(),
{
    if s.len() == 0 {
    } else {
        assert(s.last() == s[s.len() - 1]);
        lemma_lookup_pair_absent(s.drop_last(), token0, token1);
    }
}

/// A recorded canonical pair is found at its index.
pub proof fn lemma_lookup_pair_at_index(s: Seq<RaumFiPair>, i: int)
    requires
        pairs_wf(s),
        0 <= i < s.len(),
    ensures
        spec_lookup_pair(s, s[i].token0, s[i].token1) == Some(i),
    decreases s.len(),
{
    if i == s.len() - 1 {
    } else {
        assert(s.drop_last()[i] == s[i]);
        assert(forall|k: int|
            0 <= k < s.drop_last().len() ==> s.drop_last()[k] == s[k]);
        lemma_lookup_pair_at_index(s.drop_last(), i);
    }
}

/// A found index is in range and holds the canonical pair looked for.
pub proof fn lemma_lookup_pair_index_matches(s: Seq<RaumFiPair>, token0: u64, token1: u64)
    requires
        spec_lookup_pair(s, token0, token1) is Some,
    ensures
        ({
            let j = spec_lookup_pair(s, token0, token1)->Some_0;
            &&& 0 <= j < s.len()
            &&& s[j].token0 == token0
            &&& s[j].token1 == token1
        }),
    decreases s.len(),
{
    if s.len() == 0 {
    } else if s.last().token0 == token0 && s.last().token1 == token1 {
        assert(s[s.len() - 1] == s.last());
    } else {
        lemma_lookup_pair_index_matches(s.drop_last(), token0, token1);
        let j = spec_lookup_pair(s.drop_last(), token0, token1)->Some_0;
        assert(s.drop_last()[j] == s[j]);
    }
}

/// The reserves answer for an unordered asset pair: the pair's recorded
/// reserves, oriented so that the first element belongs to `token_a`.
pub open spec fn spec_get_reserves(s: Seq<RaumFiPair>, token_a: u64, token_b: u64) -> Result<
    (int, int),
    RaumFiLibraryError,
> {
    if token_a == token_b {
        Err(RaumFiLibraryError::IdenticalAddresses)
    } else {
        let c = spec_canonical(token_a, token_b);
        match spec_lookup_pair(s, c.0, c.1) {
            None => Err(RaumFiLibraryError::PairDoesNotExist),
            Some(i) => {
                let p = s[i];
                if token_a == c.0 {
                    Ok((p.reserve0 as int, p.reserve1 as int))
                } else {
                    Ok((p.reserve1 as int, p.reserve0 as int))
                }
            },
        }
    }
}

/// Find the index of the pair holding an unordered asset pair.
pub fn find_pair_index(pairs: &Vec<RaumFiPair>, token0: u64, token1: u64) -> (r: Option<usize>)
    requires
        pairs_wf(pairs@),
    ensures
        r is Some ==> spec_lookup_pair(pairs@, token0, token1) == Some(r->Some_0 as int)
            && r->Some_0 < pairs@.len(),
        r is None ==> spec_lookup_pair(pairs@, token0, token1) is None,
{
    let n = pairs.len();
    let mut i: usize = 0;
    while i < n
        invariant
            pairs_wf(pairs@),
            n == pairs@.len(),
            0 <= i <= n,
            forall|j: int|
                0 <= j < i ==> !((#[trigger] pairs@[j]).token0 == token0 && pairs@[j].token1
                    == token1),
        decreases n - i,
    {
        if pairs[i].token0 == token0 && pairs[i].token1 == token1 {
            proof {
                lemma_lookup_pair_at_index(pairs@, i as int);
            }
            return Some(i);
        }
        i = i + 1;
    }
    proof {
        lemma_lookup_pair_absent(pairs@, token0, token1);
    }
    None
}

/// Fetch and orient the live reserves for an unordered asset pair.
pub fn get_reserves(pairs: &Vec<RaumFiPair>, token_a: u64, token_b: u64) -> (r: Result<
    (i128, i128),
    RaumFiLibraryError,
>)
    requires
        pairs_wf(pairs@),
    ensures
        ({
            let step = spec_get_reserves(pairs@, token_a, token_b);
            match step {
                Ok(v) => r == Ok::<(i128, i128), RaumFiLibraryError>((v.0 as i128, v.1 as i128)),
                Err(e) => r == Err::<(i128, i128), RaumFiLibraryError>(e),
            }
        }),
{
    if token_a == token_b {
        return Err(RaumFiLibraryError::IdenticalAddresses);
    }
    let (token0, token1) = if token_a < token_b {
        (token_a, token_b)
    } else {
        (token_b, token_a)
    };
    let idx = match find_pair_index(pairs, token0, token1) {
        Some(i) => i,
        None => {
            return Err(RaumFiLibraryError::PairDoesNotExist);
        },
    };
    let reserve0 = pairs[idx].reserve0;
    let reserve1 = pairs[idx].reserve1;
    if token_a == token0 {
        Ok((reserve0, reserve1))
    } else {
        Ok((reserve1, reserve0))
    }
}

/// The chained forward amounts for the tail of a path, head amount given.
pub open spec fn spec_amounts_out_from(s: Seq<RaumFiPair>, amount_in: int, path: Seq<u64>) -> Result<
    Seq<int>,
    RaumFiLibraryError,
>
    decreases path.len(),
{
    if path.len() <= 1 {
        Ok(seq![amount_in])
    } else {
        match spec_get_reserves(s, path[0], path[1]) {
            Err(e) => Err(e),
            Ok(rs) => match spec_calculate_amount_out(amount_in, rs.0, rs.1) {
                Err(e) => Err(e),
                Ok(next) => match spec_amounts_out_from(s, next, path.drop_first()) {
                    Err(e) => Err(e),
                    Ok(rest) => Ok(seq![amount_in] + rest),
                },
            },
        }
    }
}

/// The forward amounts along a path: the given input, then each hop's
/// output priced against that hop's live reserves.
pub open spec fn spec_get_amounts_out(s: Seq<RaumFiPair>, amount_in: int, path: Seq<u64>) -> Result<
    Seq<int>,
    RaumFiLibraryError,
> {
    if path.len() < 2 {
        Err(RaumFiLibraryError::InvalidPath)
    } else {
        spec_amounts_out_from(s, amount_in, path)
    }
}

/// The chained backward amounts for the head of a path, tail amount given.
pub open spec fn spec_amounts_in_to(s: Seq<RaumFiPair>, amount_out: int, path: Seq<u64>) -> Result<
    Seq<int>,
    RaumFiLibraryError,
>
    decreases path.len(),
{
    if path.len() <= 1 {
        Ok(seq![amount_out])
    } else {
        match spec_amounts_in_to(s, amount_out, path.drop_first()) {
            Err(e) => Err(e),
            Ok(rest) => match spec_get_reserves(s, path[0], path[1]) {
                Err(e) => Err(e),
                Ok(rs) => match spec_calculate_amount_in(rest[0], rs.0, rs.1) {
                    Err(e) => Err(e),
                    Ok(first) => Ok(seq![first] + rest),
                },
            },
        }
    }
}

/// The backward amounts along a path: each hop's required input, down to
/// the desired final output.
pub open spec fn spec_get_amounts_in(s: Seq<RaumFiPair>, amount_out: int, path: Seq<u64>) -> Result<
    Seq<int>,
    RaumFiLibraryError,
> {
    if path.len() < 2 {
        Err(RaumFiLibraryError::InvalidPath)
    } else {
        spec_amounts_in_to(s, amount_out, path)
    }
}

/// A successful forward chain yields one amount per path entry, headed by
/// the input.
pub proof fn lemma_amounts_out_from_shape(s: Seq<RaumFiPair>, amount_in: int, path: Seq<u64>)
    requires
        path.len() >= 1,
        spec_amounts_out_from(s, amount_in, path) is Ok,
    ensures
        spec_amounts_out_from(s, amount_in, path)->Ok_0.len() == path.len(),
        spec_amounts_out_from(s, amount_in, path)->Ok_0[0] == amount_in,
    decreases path.len(),
{
    if path.len() <= 1 {
    } else {
        match spec_get_reserves(s, path[0], path[1]) {
            Err(_) => {},
            Ok(rs) => {
                match spec_calculate_amount_out(amount_in, rs.0, rs.1) {
                    Err(_) => {},
                    Ok(next) => {
                        lemma_amounts_out_from_shape(s, next, path.drop_first());
                    },
                }
            },
        }
    }
}

/// A successful backward chain yields one amount per path entry, ending in
/// the output.
pub proof fn lemma_amounts_in_to_shape(s: Seq<RaumFiPair>, amount_out: int, path: Seq<u64>)
    requires
        path.len() >= 1,
        spec_amounts_in_to(s, amount_out, path) is Ok,
    ensures
        spec_amounts_in_to(s, amount_out, path)->Ok_0.len() == path.len(),
        spec_amounts_in_to(s, amount_out, path)->Ok_0.last() == amount_out,
    decreases path.len(),
{
    if path.len() <= 1 {
    } else {
        match spec_amounts_in_to(s, amount_out, path.drop_first()) {
            Err(_) => {},
            Ok(rest) => {
                lemma_amounts_in_to_shape(s, amount_out, path.drop_first());
            },
        }
    }
}

/// A successful forward quote is non-negative and below the output reserve.
pub proof fn lemma_calculate_out_bounds(amount_in: int, reserve_in: int, reserve_out: int)
    requires
        spec_calculate_amount_out(amount_in, reserve_in, reserve_out) is Ok,
    ensures
        0 <= spec_calculate_amount_out(amount_in, reserve_in, reserve_out)->Ok_0 < reserve_out,
{
    let net = spec_net_in(amount_in);
    assert(0 <= 3 * amount_in / 1000 <= amount_in) by (nonlinear_arith)
        requires
            amount_in > 0,
    ;
    assert(0 <= net * reserve_out / (reserve_in + net) < reserve_out) by (nonlinear_arith)
        requires
            net >= 0,
            reserve_in > 0,
            reserve_out > 0,
    ;
}

/// A successful backward quote is positive.
pub proof fn lemma_calculate_in_positive(amount_out: int, reserve_in: int, reserve_out: int)
    requires
        spec_calculate_amount_in(amount_out, reserve_in, reserve_out) is Ok,
    ensures
        spec_calculate_amount_in(amount_out, reserve_in, reserve_out)->Ok_0 >= 1,
{
    let n = reserve_in * amount_out * 1000;
    let d = (reserve_out - amount_out) * 997;
    assert(n >= 1 && d >= 1) by (nonlinear_arith)
        requires
            reserve_in > 0,
            amount_out > 0,
            reserve_out > amount_out,
            n == reserve_in * amount_out * 1000,
            d == (reserve_out - amount_out) * 997,
    ;
    assert(spec_div_ceil(n, d) >= 0) by (nonlinear_arith)
        requires
            n >= 1,
            d >= 1,
    ;
}

/// Every amount in a successful forward chain is non-negative.
pub proof fn lemma_amounts_out_from_nonneg(s: Seq<RaumFiPair>, amount_in: int, path: Seq<u64>)
    requires
        amount_in >= 0,
        spec_amounts_out_from(s, amount_in, path) is Ok,
    ensures
        forall|k: int|
            0 <= k < spec_amounts_out_from(s, amount_in, path)->Ok_0.len()
                ==> spec_amounts_out_from(s, amount_in, path)->Ok_0[k] >= 0,
    decreases path.len(),
{
    if path.len() <= 1 {
    } else {
        match spec_get_reserves(s, path[0], path[1]) {
            Err(_) => {},
            Ok(rs) => {
                match spec_calculate_amount_out(amount_in, rs.0, rs.1) {
                    Err(_) => {},
                    Ok(next) => {
                        lemma_calculate_out_bounds(amount_in, rs.0, rs.1);
                        lemma_amounts_out_from_nonneg(s, next, path.drop_first());
                    },
                }
            },
        }
    }
}

/// Every amount in a successful backward chain is non-negative.
pub proof fn lemma_amounts_in_to_nonneg(s: Seq<RaumFiPair>, amount_out: int, path: Seq<u64>)
    requires
        amount_out >= 0,
        spec_amounts_in_to(s, amount_out, path) is Ok,
    ensures
        forall|k: int|
            0 <= k < spec_amounts_in_to(s, amount_out, path)->Ok_0.len() ==> spec_amounts_in_to(
                s,
                amount_out,
                path,
            )->Ok_0[k] >= 0,
    decreases path.len(),
{
    if path.len() <= 1 {
    } else {
        match spec_amounts_in_to(s, amount_out, path.drop_first()) {
            Err(_) => {},
            Ok(rest) => {
                lemma_amounts_in_to_nonneg(s, amount_out, path.drop_first());
                match spec_get_reserves(s, path[0], path[1]) {
                    Err(_) => {},
                    Ok(rs) => {
                        match spec_calculate_amount_in(rest[0], rs.0, rs.1) {
                            Err(_) => {},
                            Ok(first) => {
                                lemma_calculate_in_positive(rest[0], rs.0, rs.1);
                            },
                        }
                    },
                }
            },
        }
    }
}

/// A successful backward chain of at least one hop has a positive target.
pub proof fn lemma_amounts_in_target_positive(s: Seq<RaumFiPair>, amount_out: int, path: Seq<u64>)
    requires
        path.len() >= 2,
        spec_amounts_in_to(s, amount_out, path) is Ok,
    ensures
        amount_out > 0,
    decreases path.len(),
{
    if path.len() == 2 {
    } else {
        lemma_amounts_in_target_positive(s, amount_out, path.drop_first());
    }
}

/// An error in a suffix of a backward chain is the whole chain's error.
pub proof fn lemma_amounts_in_suffix_err(
    s: Seq<RaumFiPair>,
    amount_out: int,
    path: Seq<u64>,
    i: int,
    e: RaumFiLibraryError,
)
    requires
        0 <= i < path.len(),
        spec_amounts_in_to(s, amount_out, path.subrange(i, path.len() as int)) == Err::<
            Seq<int>,
            _,
        >(e),
    ensures
        spec_amounts_in_to(s, amount_out, path) == Err::<Seq<int>, _>(e),
    decreases i,
{
    if i == 0 {
        assert(path.subrange(0, path.len() as int) =~= path);
    } else {
        let tail = path.drop_first();
        assert(tail.subrange(i - 1, tail.len() as int) =~= path.subrange(i, path.len() as int));
        lemma_amounts_in_suffix_err(s, amount_out, tail, i - 1, e);
    }
}

/// Chain the swap output along a path, each hop priced at its pair's live
/// reserves.
pub fn get_amounts_out(pairs: &Vec<RaumFiPair>, amount_in: i128, path: &Vec<u64>) -> (r: Result<
    Vec<i128>,
    RaumFiLibraryError,
>)
    requires
        pairs_wf(pairs@),
    ensures
        ({
            let step = spec_get_amounts_out(pairs@, amount_in as int, path@);
            match step {
                Err(e) => r == Err::<Vec<i128>, RaumFiLibraryError>(e),
                Ok(sq) => r is Ok && r->Ok_0@.len() == sq.len() && (forall|k: int|
                    0 <= k < sq.len() ==> r->Ok_0@[k] == sq[k]),
            }
        }),
{
    let n = path.len();
    if n < 2 {
        return Err(RaumFiLibraryError::InvalidPath);
    }
    let mut amounts: Vec<i128> = Vec::new();
    amounts.push(amount_in);
    let mut i: usize = 0;
    proof {
        assert(path@.subrange(0, n as int) =~= path@);
        match spec_amounts_out_from(pairs@, amount_in as int, path@) {
            Err(_) => {},
            Ok(_) => {
                lemma_amounts_out_from_shape(pairs@, amount_in as int, path@);
            },
        }
    }
    while i < n - 1
        invariant
            pairs_wf(pairs@),
            n == path@.len(),
            2 <= n,
            0 <= i <= n - 1,
            amounts@.len() == i + 1,
            ({
                let step = spec_amounts_out_from(
                    pairs@,
                    amounts@[i as int] as int,
                    path@.subrange(i as int, n as int),
                );
                match step {
                    Err(e) => spec_get_amounts_out(pairs@, amount_in as int, path@) == Err::<
                        Seq<int>,
                        _,
                    >(e),
                    Ok(tail) => {
                        let full = spec_get_amounts_out(pairs@, amount_in as int, path@);
                        &&& full is Ok
                        &&& full->Ok_0.len() == n
                        &&& tail.len() == n - i
                        &&& (forall|k: int| 0 <= k <= i ==> full->Ok_0[k] == amounts@[k])
                        &&& (forall|k: int| i <= k < n ==> full->Ok_0[k] == tail[k - i])
                    },
                }
            }),
        decreases n - 1 - i,
    {
        proof {
            let sub = path@.subrange(i as int, n as int);
            assert(sub[0] == path@[i as int]);
            assert(sub[1] == path@[i as int + 1]);
            assert(sub.drop_first() =~= path@.subrange(i as int + 1, n as int));
            match spec_amounts_out_from(pairs@, amounts@[i as int] as int, sub) {
                Err(_) => {},
                Ok(tail) => {
                    lemma_amounts_out_from_shape(pairs@, amounts@[i as int] as int, sub);
                },
            }
        }
        let rs = match get_reserves(pairs, path[i], path[i + 1]) {
            Ok(rs) => rs,
            Err(e) => {
                return Err(e);
            },
        };
        let current = amounts[i];
        let next = match calculate_amount_out(current, rs.0, rs.1) {
            Ok(v) => v,
            Err(e) => {
                return Err(e);
            },
        };
        proof {
            let sub1 = path@.subrange(i as int + 1, n as int);
            match spec_amounts_out_from(pairs@, next as int, sub1) {
                Err(_) => {},
                Ok(rest) => {
                    lemma_amounts_out_from_shape(pairs@, next as int, sub1);
                },
            }
        }
        amounts.push(next);
        i = i + 1;
    }
    proof {
        let sub = path@.subrange(i as int, n as int);
        assert(sub.len() == 1);
    }
    Ok(amounts)
}

/// Chain the required input backwards along a path, each hop priced at its
/// pair's live reserves.
pub fn get_amounts_in(pairs: &Vec<RaumFiPair>, amount_out: i128, path: &Vec<u64>) -> (r: Result<
    Vec<i128>,
    RaumFiLibraryError,
>)
    requires
        pairs_wf(pairs@),
    ensures
        ({
            let step = spec_get_amounts_in(pairs@, amount_out as int, path@);
            match step {
                Err(e) => r == Err::<Vec<i128>, RaumFiLibraryError>(e),
                Ok(sq) => r is Ok && r->Ok_0@.len() == sq.len() && (forall|k: int|
                    0 <= k < sq.len() ==> r->Ok_0@[k] == sq[k]),
            }
        }),
{
    let n = path.len();
    if n < 2 {
        return Err(RaumFiLibraryError::InvalidPath);
    }
    let mut amounts: Vec<i128> = Vec::new();
    amounts.push(amount_out);
    let mut i: usize = n - 1;
    proof {
        assert(path@.subrange(n as int - 1, n as int).len() == 1);
    }
    while i > 0
        invariant
            pairs_wf(pairs@),
            n == path@.len(),
            2 <= n,
            0 <= i <= n - 1,
            amounts@.len() == n - i,
            ({
                let step = spec_amounts_in_to(
                    pairs@,
                    amount_out as int,
                    path@.subrange(i as int, n as int),
                );
                match step {
                    Err(_) => false,
                    Ok(part) => part.len() == n - i && (forall|k: int|
                        0 <= k < part.len() ==> part[k] == amounts@[k]),
                }
            }),
        decreases i,
    {
        let rs = match get_reserves(pairs, path[i - 1], path[i]) {
            Ok(rs) => rs,
            Err(e) => {
                proof {
                    let sub = path@.subrange(i as int - 1, n as int);
                    assert(sub[0] == path@[i as int - 1]);
                    assert(sub[1] == path@[i as int]);
                    assert(sub.drop_first() =~= path@.subrange(i as int, n as int));
                    lemma_amounts_in_suffix_err(pairs@, amount_out as int, path@, i as int - 1, e);
                }
                return Err(e);
            },
        };
        let first = amounts[0];
        let required = match calculate_amount_in(first, rs.0, rs.1) {
            Ok(v) => v,
            Err(e) => {
                proof {
                    let sub = path@.subrange(i as int - 1, n as int);
                    assert(sub[0] == path@[i as int - 1]);
                    assert(sub[1] == path@[i as int]);
                    assert(sub.drop_first() =~= path@.subrange(i as int, n as int));
                    lemma_amounts_in_suffix_err(pairs@, amount_out as int, path@, i as int - 1, e);
                }
                return Err(e);
            },
        };
        proof {
            let sub = path@.subrange(i as int - 1, n as int);
            assert(sub[0] == path@[i as int - 1]);
            assert(sub[1] == path@[i as int]);
            assert(sub.drop_first() =~= path@.subrange(i as int, n as int));
        }
        amounts.insert(0, required);
        i = i - 1;
    }
    proof {
        assert(path@.subrange(0, n as int) =~= path@);
    }
    Ok(amounts)
}

/// The pricing library's contract-style entry points, under the names its
/// callers use.
pub struct RaumFiV2Library;

impl RaumFiV2Library {
    /// See [`calculate_amount_out`].
    pub fn get_amount_out(amount_in: i128, reserve_in: i128, reserve_out: i128) -> (r: Result<
        i128,
        RaumFiLibraryError,
    >)
        ensures
            ({
                let step = spec_calculate_amount_out(
                    amount_in as int,
                    reserve_in as int,
                    reserve_out as int,
                );
                match step {
                    Ok(v) => r == Ok::<i128, RaumFiLibraryError>(v as i128),
                    Err(e) => r == Err::<i128, RaumFiLibraryError>(e),
                }
            }),
    {
        calculate_amount_out(amount_in, reserve_in, reserve_out)
    }

    /// See [`calculate_amount_in`].
    pub fn get_amount_in(amount_out: i128, reserve_in: i128, reserve_out: i128) -> (r: Result<
        i128,
        RaumFiLibraryError,
    >)
        ensures
            ({
                let step = spec_calculate_amount_in(
                    amount_out as int,
                    reserve_in as int,
                    reserve_out as int,
                );
                match step {
                    Ok(v) => r == Ok::<i128, RaumFiLibraryError>(v as i128),
                    Err(e) => r == Err::<i128, RaumFiLibraryError>(e),
                }
            }),
    {
        calculate_amount_in(amount_out, reserve_in, reserve_out)
    }
}

// ---------------------------------------------------------------------------
// Laws of the pricing math
// ---------------------------------------------------------------------------

/// A swap priced by `calculate_amount_out` never shrinks the constant
/// product: after the fee is withheld from the input, the grown input-side
/// reserve times the shrunk output-side reserve still covers the old product.
pub proof fn lemma_swap_preserves_product(amount_in: int, reserve_in: int, reserve_out: int)
    requires
        amount_in > 0,
        reserve_in > 0,
        reserve_out > 0,
    ensures
        (reserve_in + spec_net_in(amount_in)) * (reserve_out - spec_amount_out(
            amount_in,
            reserve_in,
            reserve_out,
        )) >= reserve_in * reserve_out,
{
    let net = spec_net_in(amount_in);
    assert(0 <= 3 * amount_in / 1000 <= amount_in) by (nonlinear_arith)
        requires
            amount_in > 0,
    ;
    assert(net >= 0);
    let out = spec_amount_out(amount_in, reserve_in, reserve_out);
    assert(out * (reserve_in + net) <= net * reserve_out && out >= 0) by (nonlinear_arith)
        requires
            out == net * reserve_out / (reserve_in + net),
            net >= 0,
            reserve_in > 0,
            reserve_out > 0,
    ;
    assert((reserve_in + net) * (reserve_out - out) >= reserve_in * reserve_out)
        by (nonlinear_arith)
        requires
            out * (reserve_in + net) <= net * reserve_out,
            net >= 0,
            reserve_in > 0,
            reserve_out > 0,
            out >= 0,
    ;
}

/// The inverse quote is conservative: wherever the forward price divides
/// exactly and yields at least one unit, quoting the input back for that
/// output demands at least the original input. (When the forward division
/// rounds, many inputs share one output and the inverse can only return a
/// near-minimal one of them, so exact division is required here.)
pub proof fn lemma_round_trip_conservative(x: int, reserve_in: int, reserve_out: int)
    requires
        x > 0,
        reserve_in > 0,
        reserve_out > 0,
        spec_amount_out(x, reserve_in, reserve_out) >= 1,
        (spec_net_in(x) * reserve_out) % (reserve_in + spec_net_in(x)) == 0,
    ensures
        spec_amount_in(spec_amount_out(x, reserve_in, reserve_out), reserve_in, reserve_out) >= x,
{
    let net = spec_net_in(x);
    let fee = spec_fee(x);
    assert(0 <= 3 * x / 1000 <= x) by (nonlinear_arith)
        requires
            x > 0,
    ;
    assert(net >= 0 && fee >= 1);
    let out = spec_amount_out(x, reserve_in, reserve_out);
    // Exact division: the output times the denominator recovers the numerator.
    assert(out * (reserve_in + net) == net * reserve_out) by (nonlinear_arith)
        requires
            out == net * reserve_out / (reserve_in + net),
            (net * reserve_out) % (reserve_in + net) == 0,
            reserve_in + net > 0,
    ;
    // The output never exhausts the output-side reserve.
    assert(out < reserve_out) by (nonlinear_arith)
        requires
            out * (reserve_in + net) == net * reserve_out,
            out >= 1,
            net >= 0,
            reserve_in > 0,
            reserve_out > 0,
    ;
    // The numerator of the inverse quote collapses along the common factor.
    let gap = reserve_out - out;
    assert(reserve_in * out == net * gap) by (nonlinear_arith)
        requires
            out * (reserve_in + net) == net * reserve_out,
            gap == reserve_out - out,
    ;
    let n = reserve_in * out * 1000;
    let d = gap * 997;
    assert(gap > 0);
    assert(n == 1000 * net * gap && d == 997 * gap) by (nonlinear_arith)
        requires
            n == reserve_in * out * 1000,
            d == gap * 997,
            reserve_in * out == net * gap,
    ;
    let c = spec_div_ceil(n, d);
    // A ceiling division covers its rational value.
    assert(c * d >= n) by (nonlinear_arith)
        requires
            d > 0,
            n >= 0,
            c == (if n % d == 0 {
                n / d
            } else {
                n / d + 1
            }),
    ;
    // Scale back down by the common positive factor.
    assert(997 * c >= 1000 * net) by (nonlinear_arith)
        requires
            c * d >= n,
            n == 1000 * net * gap,
            d == 997 * gap,
            gap > 0,
    ;
    // The fee never exceeds three parts per thousand plus the minimum unit.
    assert(1000 * fee <= 3 * x + 997) by (nonlinear_arith)
        requires
            fee == spec_fee(x),
            x > 0,
            fee == (if 3 * x / 1000 == 0 {
                1
            } else {
                3 * x / 1000
            }),
    ;
    assert(1000 * net >= 997 * x - 997);
    assert(997 * c >= 997 * (x - 1));
    assert(c >= x - 1);
    assert(spec_amount_in(out, reserve_in, reserve_out) == c + 1);
}

/// Quoting is linear wherever the division is exact: doubling the input
/// doubles the quote. (With a rounding division the doubled input can pick
/// up the lost remainder, so exactness is required here.)
pub proof fn lemma_quote_linear(amount_a: int, reserve_a: int, reserve_b: int)
    requires
        amount_a > 0,
        reserve_a > 0,
        reserve_b > 0,
        (amount_a * reserve_b) % reserve_a == 0,
    ensures
        2 * amount_a * reserve_b / reserve_a == 2 * (amount_a * reserve_b / reserve_a),
{
    let q = amount_a * reserve_b / reserve_a;
    assert(amount_a * reserve_b == q * reserve_a) by (nonlinear_arith)
        requires
            q == amount_a * reserve_b / reserve_a,
            (amount_a * reserve_b) % reserve_a == 0,
            reserve_a > 0,
    ;
    assert(2 * amount_a * reserve_b == (2 * q) * reserve_a) by (nonlinear_arith)
        requires
            amount_a * reserve_b == q * reserve_a,
    ;
    assert((2 * q) * reserve_a / reserve_a == 2 * q) by (nonlinear_arith)
        requires
            reserve_a > 0,
    ;
    assert(2 * amount_a * reserve_b / reserve_a == 2 * q);
}

/// Burning freshly minted pool shares is never profitable: with a live pool,
/// minting against reserves and immediately burning the same shares returns
/// at most the deposited amounts on both sides.
pub proof fn lemma_liquidity_round_trip(
    total_supply: int,
    amount_a: int,
    amount_b: int,
    reserve_a: int,
    reserve_b: int,
)
    requires
        total_supply > 0,
        amount_a >= 0,
        amount_b >= 0,
        reserve_a > 0,
        reserve_b > 0,
    ensures
        ({
            let minted = vstd::math::min(
                amount_a * total_supply / reserve_a,
                amount_b * total_supply / reserve_b,
            );
            minted >= 0 ==> (reserve_a + amount_a) * minted / (total_supply + minted) <= amount_a
                && (reserve_b + amount_b) * minted / (total_supply + minted) <= amount_b
        }),
{
    let minted = vstd::math::min(
        amount_a * total_supply / reserve_a,
        amount_b * total_supply / reserve_b,
    );
    if minted >= 0 {
        assert(minted * reserve_a <= amount_a * total_supply && minted * reserve_b <= amount_b
            * total_supply) by (nonlinear_arith)
            requires
                minted <= amount_a * total_supply / reserve_a,
                minted <= amount_b * total_supply / reserve_b,
                reserve_a > 0,
                reserve_b > 0,
                amount_a >= 0,
                amount_b >= 0,
                total_supply > 0,
        ;
        assert((reserve_a + amount_a) * minted / (total_supply + minted) <= amount_a)
            by (nonlinear_arith)
            requires
                minted * reserve_a <= amount_a * total_supply,
                minted >= 0,
                total_supply > 0,
                amount_a >= 0,
        ;
        assert((reserve_b + amount_b) * minted / (total_supply + minted) <= amount_b)
            by (nonlinear_arith)
            requires
                minted * reserve_b <= amount_b * total_supply,
                minted >= 0,
                total_supply > 0,
                amount_b >= 0,
        ;
    }
}

/// Burning the shares of a bootstrap mint is never profitable either: the
/// first deposit mints the geometric mean of the deposit less the locked
/// floor, and burning those shares returns at most the deposit.
pub proof fn lemma_bootstrap_round_trip(amount_a: int, amount_b: int)
    requires
        amount_a >= 0,
        amount_b >= 0,
    ensures
        ({
            let root = spec_sqrt((amount_a * amount_b) as nat) as int;
            let minted = root - 1000;
            minted > 0 ==> amount_a * minted / root <= amount_a && amount_b * minted / root
                <= amount_b
        }),
{
    let root = spec_sqrt((amount_a * amount_b) as nat) as int;
    let minted = root - 1000;
    if minted > 0 {
        assert(amount_a * minted / root <= amount_a) by (nonlinear_arith)
            requires
                root > 1000,
                minted == root - 1000,
                amount_a >= 0,
        ;
        assert(amount_b * minted / root <= amount_b) by (nonlinear_arith)
            requires
                root > 1000,
                minted == root - 1000,
                amount_b >= 0,
        ;
    }
}

/// Whether a reserve change keeps the constant product from shrinking.
/// An overflow on either side answers `false` rather than failing.
pub fn is_constant_product_maintained(
    reserve_a: i128,
    reserve_b: i128,
    new_reserve_a: i128,
    new_reserve_b: i128,
) -> (r: bool)
    ensures
        r == (i128::MIN <= reserve_a * reserve_b <= i128::MAX && i128::MIN <= new_reserve_a
            * new_reserve_b <= i128::MAX && new_reserve_a * new_reserve_b >= reserve_a
            * reserve_b),
{
    let k_before = match reserve_a.checked_mul(reserve_b) {
        Some(k) => k,
        None => {
            return false;
        },
    };
    let k_after = match new_reserve_a.checked_mul(new_reserve_b) {
        Some(k) => k,
        None => {
            return false;
        },
    };
    k_after >= k_before
}

} // verus!

