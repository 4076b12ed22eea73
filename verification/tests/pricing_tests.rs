use raumfi_amm::errors::RaumFiLibraryError;
use raumfi_amm::factory::Pair;
use raumfi_amm::library::{
    calculate_amount_in, calculate_amount_out, calculate_burn_amounts, calculate_k,
    calculate_liquidity_minted, calculate_price_impact, calculate_quote,
    is_constant_product_maintained, optimal_liquidity, sort_tokens, CheckedCeilingDiv,
    RaumFiV2Library,
};

#[test]
fn test_sort_tokens() {
    let token_a: u64 = 17;
    let token_b: u64 = 5;
    let (token0, token1) = sort_tokens(token_a, token_b).unwrap();
    assert!(token0 < token1);
    assert!(
        (token0 == token_a && token1 == token_b) || (token0 == token_b && token1 == token_a)
    );
}

#[test]
fn test_quote() {
    let amount_a: i128 = 100;
    let reserve_a: i128 = 1000;
    let reserve_b: i128 = 2000;
    let amount_b = calculate_quote(amount_a, reserve_a, reserve_b).unwrap();
    assert_eq!(amount_b, 200);
}

#[test]
fn test_get_amount_out() {
    let amount_in: i128 = 3;
    let reserve_in: i128 = 100;
    let reserve_out: i128 = 100;
    let amount_out = RaumFiV2Library::get_amount_out(amount_in, reserve_in, reserve_out).unwrap();
    assert_eq!(amount_out, 1);
}

#[test]
fn test_get_amount_in() {
    let amount_out: i128 = 1;
    let reserve_in: i128 = 100;
    let reserve_out: i128 = 100;
    let amount_in = RaumFiV2Library::get_amount_in(amount_out, reserve_in, reserve_out).unwrap();
    assert_eq!(amount_in, 3);
}

#[test]
fn test_calculate_k() {
    let reserve_a: i128 = 1000;
    let reserve_b: i128 = 2000;
    let k = calculate_k(reserve_a, reserve_b).unwrap();
    assert_eq!(k, 2_000_000);
}

#[test]
fn test_optimal_liquidity() {
    let amount_a_desired = 100;
    let amount_b_desired = 200;
    let amount_a_min = 90;
    let amount_b_min = 180;
    let reserve_a = 1000;
    let reserve_b = 2000;
    let (amount_a, amount_b) = optimal_liquidity(
        amount_a_desired,
        amount_b_desired,
        amount_a_min,
        amount_b_min,
        reserve_a,
        reserve_b,
    )
    .unwrap();
    assert_eq!(amount_a, 100);
    assert_eq!(amount_b, 200);
}

#[test]
fn test_calculate_price_impact() {
    let amount_in = 100;
    let amount_out = 189;
    let reserve_in = 10000;
    let reserve_out: i128 = 20000;
    let price_impact =
        calculate_price_impact(amount_in, amount_out, reserve_in, reserve_out).unwrap();
    assert!(price_impact > 0 && price_impact < 1000);
}

#[test]
fn test_calculate_liquidity_minted() {
    let total_supply = 1000;
    let amount_a = 100;
    let amount_b = 200;
    let reserve_a = 1000;
    let reserve_b = 2000;
    let liquidity =
        calculate_liquidity_minted(total_supply, amount_a, amount_b, reserve_a, reserve_b)
            .unwrap();
    assert!(liquidity > 0);
}

#[test]
fn test_calculate_burn_amounts() {
    let liquidity = 100;
    let total_supply = 1000;
    let reserve_a = 1000;
    let reserve_b = 2000;
    let (amount_a, amount_b) =
        calculate_burn_amounts(liquidity, total_supply, reserve_a, reserve_b).unwrap();
    assert_eq!(amount_a, 100);
    assert_eq!(amount_b, 200);
}

#[test]
fn test_is_constant_product_maintained() {
    let reserve_a = 1000;
    let reserve_b = 2000;
    let new_reserve_a = 1100;
    let new_reserve_b = 1900;
    let constant_product_maintained =
        is_constant_product_maintained(reserve_a, reserve_b, new_reserve_a, new_reserve_b);
    assert_eq!(constant_product_maintained, true);
    let bad_new_reserve_b = 1800;
    let constant_product_maintained =
        is_constant_product_maintained(reserve_a, reserve_b, new_reserve_a, bad_new_reserve_b);
    assert_eq!(constant_product_maintained, false);
}

#[test]
fn bootstrap_liquidity_uses_the_square_root() {
    // The first deposit mints the geometric mean less the locked floor;
    // sqrt(2000 * 4000) = 2828, so 1828 shares.
    let liquidity = calculate_liquidity_minted(0, 2000, 4000, 0, 0).unwrap();
    assert_eq!(liquidity, 1828);
}

#[test]
fn swap_output_never_shrinks_the_product() {
    // Concrete check of the invariant law behind the output formula.
    let reserve_in: i128 = 1000;
    let reserve_out: i128 = 1000;
    let amount_in: i128 = 997;
    let out = calculate_amount_out(amount_in, reserve_in, reserve_out).unwrap();
    let fee = if 3 * amount_in / 1000 == 0 { 1 } else { 3 * amount_in / 1000 };
    let net = amount_in - fee;
    assert!((reserve_in + net) * (reserve_out - out) >= reserve_in * reserve_out);
}

#[test]
fn round_trip_is_conservative_on_exact_division() {
    // 3 in against (100, 100) prices exactly one unit out; quoting that
    // unit back demands at least the original input.
    let out = calculate_amount_out(3, 100, 100).unwrap();
    assert_eq!(out, 1);
    let back = calculate_amount_in(out, 100, 100).unwrap();
    assert!(back >= 3);
}

#[test]
fn quote_is_linear_on_exact_division() {
    // 5 * 30 divides evenly by 10, so doubling the input doubles the quote.
    let single = calculate_quote(5, 10, 30).unwrap();
    let double = calculate_quote(10, 10, 30).unwrap();
    assert_eq!(double, 2 * single);
}

#[test]
fn ceiling_division_rounds_up() {
    assert_eq!(7i128.checked_ceiling_div(2), Some(4));
    assert_eq!(6i128.checked_ceiling_div(2), Some(3));
    assert_eq!(5i128.checked_ceiling_div(0), None);
}

#[test]
fn canonical_pairs_sort_their_assets() {
    let pair = Pair::new(9, 4).unwrap();
    assert_eq!(*pair.token_0(), 4);
    assert_eq!(*pair.token_1(), 9);
    assert!(Pair::new(4, 4).is_err());
    let (token0, token1) = raumfi_amm::router::sort_tokens(9, 4).unwrap();
    assert_eq!((token0, token1), (4, 9));
}

#[test]
fn quote_rejects_zero_amount_and_empty_reserves() {
    assert_eq!(
        calculate_quote(0, 10, 10),
        Err(RaumFiLibraryError::InsufficientAmount)
    );
    assert_eq!(
        calculate_quote(5, 0, 10),
        Err(RaumFiLibraryError::InsufficientLiquidity)
    );
}

#[test]
fn amount_out_rejects_bad_inputs() {
    assert_eq!(
        calculate_amount_out(0, 10, 10),
        Err(RaumFiLibraryError::InsufficientAmount)
    );
    assert_eq!(
        calculate_amount_out(5, 0, 10),
        Err(RaumFiLibraryError::InsufficientLiquidity)
    );
}

#[test]
fn amount_in_rejects_draining_the_reserve() {
    assert_eq!(
        calculate_amount_in(100, 100, 100),
        Err(RaumFiLibraryError::InsufficientLiquidity)
    );
    assert_eq!(
        calculate_amount_in(0, 100, 100),
        Err(RaumFiLibraryError::InsufficientAmount)
    );
}

#[test]
fn arithmetic_overflow_is_a_typed_error() {
    assert_eq!(calculate_k(i128::MAX, 2), Err(RaumFiLibraryError::Overflow));
    assert_eq!(
        calculate_quote(i128::MAX, 1, 2),
        Err(RaumFiLibraryError::Overflow)
    );
}

#[test]
fn burn_amounts_reject_excessive_liquidity() {
    assert_eq!(
        calculate_burn_amounts(1001, 1000, 1000, 1000),
        Err(RaumFiLibraryError::InsufficientTotalSupply)
    );
    assert_eq!(
        calculate_burn_amounts(1, 1000, 100, 100),
        Err(RaumFiLibraryError::InsufficientLiquidityBurned)
    );
}

#[test]
fn liquidity_round_trip_never_profits() {
    // Mint against a live pool, burn the same shares at once: both sides
    // return no more than was deposited.
    let total_supply: i128 = 1000;
    let (reserve_a, reserve_b): (i128, i128) = (1000, 2000);
    let (amount_a, amount_b): (i128, i128) = (333, 777);
    let minted =
        calculate_liquidity_minted(total_supply, amount_a, amount_b, reserve_a, reserve_b)
            .unwrap();
    let (back_a, back_b) = calculate_burn_amounts(
        minted,
        total_supply + minted,
        reserve_a + amount_a,
        reserve_b + amount_b,
    )
    .unwrap();
    assert!(back_a <= amount_a);
    assert!(back_b <= amount_b);
}
