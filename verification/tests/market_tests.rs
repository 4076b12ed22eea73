use raumfi_amm::errors::{Error, RaumFiPairError, RaumFiRouterError};
use raumfi_amm::factory::FactoryContract;
use raumfi_amm::pair::RaumFiPair;
use raumfi_amm::pair_token::PairToken;
use raumfi_amm::router::RaumFiRouter;

const ADMIN: u64 = 11;
const USER: u64 = 12;
const FEE_TO: u64 = 13;
const TOKEN_A: u64 = 1;
const TOKEN_B: u64 = 2;
const TOKEN_C: u64 = 3;
const FACTORY_ADDR: u64 = 900;
const PAIR_ADDR: u64 = 1000;
const PAIR_ADDR_2: u64 = 1001;
const TEMPLATE: u64 = 32;

fn fresh_factory() -> FactoryContract {
    let mut factory = FactoryContract::new(FACTORY_ADDR);
    factory.initialize(ADMIN, TEMPLATE).unwrap();
    factory
}

fn fresh_pair() -> RaumFiPair {
    let mut pair = RaumFiPair::new(PAIR_ADDR);
    pair.initialize(TOKEN_A, TOKEN_B, FACTORY_ADDR).unwrap();
    pair
}

#[test]
fn test_initialize() {
    let factory = fresh_factory();
    assert_eq!(factory.fee_to_setter, ADMIN);
    assert_eq!(factory.pair_template, TEMPLATE);
    assert_eq!(factory.all_pairs_length(), 0);
}

#[test]
fn test_create_pair() {
    let mut factory = fresh_factory();
    let pair = factory
        .create_new_pair(TOKEN_A, TOKEN_B, PAIR_ADDR)
        .unwrap();
    assert_eq!(pair, PAIR_ADDR);
    assert_eq!(factory.all_pairs_length(), 1);
    assert_eq!(factory.get_pair(TOKEN_A, TOKEN_B), Some(PAIR_ADDR));
}

#[test]
fn test_create_pair_identical_addresses() {
    let mut factory = fresh_factory();
    let result = factory.create_new_pair(TOKEN_A, TOKEN_A, PAIR_ADDR);
    assert_eq!(result, Err(Error::IdenticalAddresses));
}

#[test]
fn test_create_pair_exists() {
    let mut factory = fresh_factory();
    factory
        .create_new_pair(TOKEN_A, TOKEN_B, PAIR_ADDR)
        .unwrap();
    let result = factory.create_new_pair(TOKEN_A, TOKEN_B, PAIR_ADDR_2);
    assert_eq!(result, Err(Error::PairExists));
}

#[test]
fn test_set_fee_to() {
    let mut factory = fresh_factory();
    factory.set_fee_to(ADMIN, FEE_TO).unwrap();
    assert_eq!(factory.get_fee_to(), FEE_TO);
}

#[test]
fn test_set_fee_to_unauthorized() {
    let mut factory = fresh_factory();
    let result = factory.set_fee_to(USER, FEE_TO);
    assert_eq!(result, Err(Error::Forbidden));
}

#[test]
fn pair_creation_is_unordered() {
    // Creation in reversed order also fails, and lookups agree in both
    // argument orders.
    let mut factory = fresh_factory();
    factory
        .create_new_pair(TOKEN_B, TOKEN_A, PAIR_ADDR)
        .unwrap();
    assert_eq!(
        factory.create_new_pair(TOKEN_A, TOKEN_B, PAIR_ADDR_2),
        Err(Error::PairExists)
    );
    assert_eq!(
        factory.get_pair(TOKEN_A, TOKEN_B),
        factory.get_pair(TOKEN_B, TOKEN_A)
    );
    assert_eq!(factory.get_pair(TOKEN_A, TOKEN_B), Some(PAIR_ADDR));
}

#[test]
fn test_get_reserves() {
    let mut pair = fresh_pair();
    pair.reserve0 = 100;
    pair.reserve1 = 200;
    let (reserve0, reserve1) = pair.get_reserves();
    assert_eq!(reserve0, 100);
    assert_eq!(reserve1, 200);
}

#[test]
fn test_mint() {
    let mut pair = fresh_pair();
    pair.reserve0 = 1000;
    pair.reserve1 = 1000;
    let result = pair.mint(USER, 2000, 4000, FEE_TO).unwrap();
    assert_eq!(result, 732);
}

#[test]
fn test_locked_mint() {
    let mut pair = fresh_pair();
    pair.acquire_guard().unwrap();
    let result = pair.mint(FEE_TO, 2000, 4000, FEE_TO);
    assert_eq!(result, Err(RaumFiPairError::Locked));
}

#[test]
fn test_swap() {
    let mut pair = fresh_pair();
    pair.mint(USER, 50_000_000, 100_000_000, FEE_TO).unwrap();
    pair.swap(0, 16624979, USER, 60_000_000, 83_375_021).unwrap();
    let (reserve0, reserve1) = pair.get_reserves();
    assert_eq!(50_000_000_i128.checked_add(10_000_000).unwrap(), reserve0);
    assert_eq!(100_000_000_i128.checked_sub(16624979).unwrap(), reserve1);
}

#[test]
fn test_burn() {
    let mut pair = fresh_pair();
    pair.mint(USER, 3_000_000, 2_000_000, FEE_TO).unwrap();
    // No shares were moved back into the pair, so only the locked floor is
    // there and the burn fails; the reserves stay put.
    let _result = pair.burn(USER, 3_000_000, 2_000_000);
    let (reserve0, reserve1) = pair.get_reserves();
    assert!(reserve0 < 3_000_0000);
    assert!(reserve1 < 2_000_0000);
}

#[test]
fn mint_then_burn_returns_no_more_than_deposited() {
    // The liquidity round trip: mint on a fresh pool, hand the shares back,
    // burn them at once; both payouts stay within the deposit.
    let mut pair = fresh_pair();
    let minted = pair.mint(USER, 2000, 2000, FEE_TO).unwrap();
    assert_eq!(minted, 1000);
    PairToken::transfer(&mut pair.token, USER, PAIR_ADDR, minted).unwrap();
    let (amount0, amount1) = pair.burn(USER, 2000, 2000).unwrap();
    assert!(amount0 <= 2000);
    assert!(amount1 <= 2000);
    // The locked floor is never redeemed: it stays at the pair's address
    // and keeps the supply away from zero.
    assert_eq!(PairToken::balance(&pair.token, PAIR_ADDR), 1000);
    assert_eq!(pair.token.get_total_supply(), 1000);
    // With only the floor left, a further burn redeems nothing.
    assert_eq!(
        pair.burn(USER, pair.reserve0, pair.reserve1),
        Err(RaumFiPairError::InsufficientLiquidityBurned)
    );
}

#[test]
fn swap_to_own_asset_is_invalid() {
    let mut pair = fresh_pair();
    pair.mint(USER, 5000, 5000, FEE_TO).unwrap();
    let result = pair.swap(0, 10, TOKEN_A, 5100, 4990);
    assert_eq!(result, Err(RaumFiPairError::InvalidTo));
    let result = pair.swap(0, 10, TOKEN_B, 5100, 4990);
    assert_eq!(result, Err(RaumFiPairError::InvalidTo));
    assert_eq!(pair.get_reserves(), (5000, 5000));
}

#[test]
fn reentrant_calls_fail_and_change_nothing() {
    // A callback during a transfer finds the guard held: every operation
    // fails with the lock error and the reserves stay as they were.
    let mut pair = fresh_pair();
    pair.mint(USER, 5000, 5000, FEE_TO).unwrap();
    pair.acquire_guard().unwrap();
    assert_eq!(
        pair.mint(USER, 9000, 9000, FEE_TO),
        Err(RaumFiPairError::Locked)
    );
    assert_eq!(
        pair.swap(0, 10, USER, 5100, 4990),
        Err(RaumFiPairError::Locked)
    );
    assert_eq!(pair.burn(USER, 5000, 5000), Err(RaumFiPairError::Locked));
    assert_eq!(pair.acquire_guard(), Err(RaumFiPairError::Locked));
    assert_eq!(pair.get_reserves(), (5000, 5000));
    pair.release_guard();
    assert!(pair.swap(0, 10, USER, 5100, 4990).is_ok());
}

#[test]
fn test_test_quote() {
    let amount_a = 1000;
    let reserve_a = 10000;
    let reserve_b = 5000;
    let result = RaumFiRouter::quote(amount_a, reserve_a, reserve_b).unwrap();
    assert_eq!(result, 500);
}

#[test]
fn test_add_liquidity() {
    let mut factory = fresh_factory();
    let mut pairs: Vec<RaumFiPair> = Vec::new();
    let amount_a_desired = 10000;
    let amount_b_desired = 5000;
    let amount_a_min = 9000;
    let amount_b_min = 4500;
    let deadline = 1000000;
    let (amount_a, amount_b, liquidity) = RaumFiRouter::add_liquidity(
        &mut factory,
        &mut pairs,
        TOKEN_A,
        TOKEN_B,
        amount_a_desired,
        amount_b_desired,
        amount_a_min,
        amount_b_min,
        ADMIN,
        deadline,
        0,
        PAIR_ADDR,
    )
    .unwrap();
    assert!(amount_a >= amount_a_min);
    assert!(amount_b >= amount_b_min);
    assert!(liquidity > 0);
}

#[test]
fn test_remove_liquidity() {
    let mut factory = fresh_factory();
    let mut pairs: Vec<RaumFiPair> = Vec::new();
    let (_deposit_a, _deposit_b, liquidity) = RaumFiRouter::add_liquidity(
        &mut factory,
        &mut pairs,
        TOKEN_A,
        TOKEN_B,
        10000,
        5000,
        9000,
        4500,
        ADMIN,
        1000000,
        0,
        PAIR_ADDR,
    )
    .unwrap();
    let amount_a_min = 800;
    let amount_b_min = 400;
    let deadline = 2000000;
    let (amount_a, amount_b) = RaumFiRouter::remove_liquidity(
        &factory,
        &mut pairs,
        TOKEN_A,
        TOKEN_B,
        liquidity,
        amount_a_min,
        amount_b_min,
        ADMIN,
        deadline,
        0,
    )
    .unwrap();
    assert!(amount_a >= amount_a_min);
    assert!(amount_b >= amount_b_min);
}

#[test]
fn remove_liquidity_without_a_pair_changes_nothing() {
    let factory = fresh_factory();
    let mut pairs: Vec<RaumFiPair> = Vec::new();
    let result = RaumFiRouter::remove_liquidity(
        &factory,
        &mut pairs,
        TOKEN_A,
        TOKEN_B,
        100,
        0,
        0,
        USER,
        1000000,
        0,
    );
    assert_eq!(result, Err(RaumFiRouterError::PairDoesNotExist));
    assert!(pairs.is_empty());
    assert_eq!(factory.all_pairs_length(), 0);
}

#[test]
fn deadline_expiry_aborts_liquidity_operations() {
    let mut factory = fresh_factory();
    let mut pairs: Vec<RaumFiPair> = Vec::new();
    let result = RaumFiRouter::add_liquidity(
        &mut factory,
        &mut pairs,
        TOKEN_A,
        TOKEN_B,
        100,
        100,
        0,
        0,
        USER,
        5,
        10,
        PAIR_ADDR,
    );
    assert_eq!(result, Err(RaumFiRouterError::DeadlineExpired));
    assert!(pairs.is_empty());
}

fn two_pair_world() -> (FactoryContract, Vec<RaumFiPair>) {
    let mut factory = fresh_factory();
    let mut pairs: Vec<RaumFiPair> = Vec::new();
    RaumFiRouter::add_liquidity(
        &mut factory,
        &mut pairs,
        TOKEN_A,
        TOKEN_B,
        1001000,
        1001000,
        0,
        0,
        ADMIN,
        1000000,
        0,
        PAIR_ADDR,
    )
    .unwrap();
    RaumFiRouter::add_liquidity(
        &mut factory,
        &mut pairs,
        TOKEN_B,
        TOKEN_C,
        1001000,
        1001000,
        0,
        0,
        ADMIN,
        1000000,
        0,
        PAIR_ADDR_2,
    )
    .unwrap();
    (factory, pairs)
}

#[test]
fn swap_exact_tokens_across_two_hops() {
    let (_factory, mut pairs) = two_pair_world();
    // Both pools sit at (1001000, 1001000); trade 100000 of the first
    // asset through the middle asset into the third.
    let path = vec![TOKEN_A, TOKEN_B, TOKEN_C];
    let amounts =
        RaumFiRouter::swap_exact_tokens_for_tokens(&mut pairs, 100000, 80000, &path, USER, 10, 0)
            .unwrap();
    assert_eq!(amounts.len(), 3);
    assert_eq!(amounts[0], 100000);
    assert!(amounts[2] >= 80000);
    // The first pool took the input, the second paid the output.
    assert_eq!(pairs[0].get_reserves().0, 1001000 + 100000);
    assert_eq!(pairs[1].get_reserves().1, 1001000 - amounts[2]);
}

#[test]
fn swap_exact_tokens_enforces_the_output_floor() {
    let (_factory, mut pairs) = two_pair_world();
    let path = vec![TOKEN_A, TOKEN_B, TOKEN_C];
    let result = RaumFiRouter::swap_exact_tokens_for_tokens(
        &mut pairs, 100000, 100001, &path, USER, 10, 0,
    );
    assert_eq!(result, Err(RaumFiRouterError::InsufficientOutputAmount));
    assert_eq!(pairs[0].get_reserves(), (1001000, 1001000));
}

#[test]
fn swap_tokens_for_exact_across_two_hops() {
    let (_factory, mut pairs) = two_pair_world();
    let path = vec![TOKEN_A, TOKEN_B, TOKEN_C];
    let amounts = RaumFiRouter::swap_tokens_for_exact_tokens(
        &mut pairs, 90000, 200000, &path, USER, 10, 0,
    )
    .unwrap();
    assert_eq!(amounts.len(), 3);
    assert_eq!(amounts[2], 90000);
    assert!(amounts[0] <= 200000);
}

#[test]
fn swap_tokens_for_exact_enforces_the_input_ceiling() {
    let (_factory, mut pairs) = two_pair_world();
    let path = vec![TOKEN_A, TOKEN_B, TOKEN_C];
    let result =
        RaumFiRouter::swap_tokens_for_exact_tokens(&mut pairs, 90000, 10, &path, USER, 10, 0);
    assert_eq!(result, Err(RaumFiRouterError::ExcessiveInputAmount));
    assert_eq!(pairs[0].get_reserves(), (1001000, 1001000));
}

#[test]
fn chained_amounts_match_the_reference_values() {
    let (_factory, pairs) = two_pair_world();
    let path = vec![TOKEN_A, TOKEN_B, TOKEN_C];
    let amounts = RaumFiRouter::get_amounts_out(&pairs, 100000, &path).unwrap();
    assert_eq!(amounts, vec![100000, 90669, 82909]);
    let back = RaumFiRouter::get_amounts_in(&pairs, 82909, &path).unwrap();
    assert_eq!(back.len(), 3);
    assert_eq!(back[2], 82909);
    assert!(back[0] >= 100000);
}

#[test]
fn short_paths_are_invalid() {
    let (_factory, pairs) = two_pair_world();
    let path = vec![TOKEN_A];
    assert_eq!(
        RaumFiRouter::get_amounts_out(&pairs, 100, &path),
        Err(raumfi_amm::errors::RaumFiLibraryError::InvalidPath)
    );
}

#[test]
fn a_path_may_not_visit_a_pair_twice() {
    let (_factory, mut pairs) = two_pair_world();
    let path = vec![TOKEN_A, TOKEN_B, TOKEN_A];
    let result =
        RaumFiRouter::swap_exact_tokens_for_tokens(&mut pairs, 100000, 0, &path, USER, 10, 0);
    assert_eq!(
        result,
        Err(RaumFiRouterError::LibraryError(
            raumfi_amm::errors::RaumFiLibraryError::InvalidPath
        ))
    );
    assert_eq!(pairs[0].get_reserves(), (1001000, 1001000));
}

#[test]
fn underpaying_a_swap_violates_the_invariant() {
    let mut pair = fresh_pair();
    pair.mint(USER, 5000, 5000, FEE_TO).unwrap();
    // 100 units out but only 50 paid in: the fee-adjusted product check
    // fails and nothing changes.
    let result = pair.swap(0, 100, USER, 5050, 4900);
    assert_eq!(result, Err(RaumFiPairError::K));
    let result = pair.swap(0, 100, USER, 5000, 4900);
    assert_eq!(result, Err(RaumFiPairError::InsufficientInputAmount));
    let result = pair.swap(0, 0, USER, 5000, 5000);
    assert_eq!(result, Err(RaumFiPairError::InsufficientOutputAmount));
    assert_eq!(pair.get_reserves(), (5000, 5000));
}

#[test]
fn withdrawing_without_a_deposit_is_invalid() {
    let mut pair = fresh_pair();
    let result = pair.mint(USER, 0, 0, FEE_TO);
    assert_eq!(result, Err(RaumFiPairError::InvalidAmount));
}

#[test]
fn previews_agree_with_the_operations() {
    let mut pair = fresh_pair();
    let predicted = pair.mint_preview(5000, 5000).unwrap();
    let minted = pair.mint(USER, 5000, 5000, FEE_TO).unwrap();
    assert_eq!(predicted, minted);
    assert_eq!(pair.swap_preview(0, 10, USER, 5100, 4990), Ok(()));
    PairToken::transfer(&mut pair.token, USER, PAIR_ADDR, 100).unwrap();
    let predicted = pair.burn_preview(5000, 5000).unwrap();
    let burned = pair.burn(USER, 5000, 5000).unwrap();
    assert_eq!(predicted, burned);
}

#[test]
fn protocol_fee_accrues_on_square_root_growth() {
    let mut pair = fresh_pair();
    let minted = pair.mint(USER, 1_000_000, 1_000_000, FEE_TO).unwrap();
    assert_eq!(minted, 999_000);
    // The recorded product is the new reserves' product.
    assert_eq!(pair.k_last, 1_000_000_000_000);
    // A swap grows the product without touching the recorded one.
    pair.swap(0, 90_661, USER, 1_100_000, 909_339).unwrap();
    assert_eq!(pair.k_last, 1_000_000_000_000);
    // The next mint first skims one sixth of the square-root growth to the
    // fee recipient, then prices the deposit against the grown supply, and
    // finally records the product of the new reserves.
    let minted = pair.mint(USER, 1_210_000, 1_000_272, FEE_TO).unwrap();
    assert_eq!(PairToken::balance(&pair.token, FEE_TO), 22);
    assert_eq!(minted, 100_001);
    assert_eq!(pair.k_last, 1_210_000 * 1_000_272);
}

#[test]
fn share_ledger_tracks_transfers_and_allowances() {
    let mut pair = fresh_pair();
    let minted = pair.mint(USER, 5000, 5000, FEE_TO).unwrap();
    assert_eq!(PairToken::balance(&pair.token, USER), minted);
    PairToken::transfer(&mut pair.token, USER, ADMIN, 100).unwrap();
    assert_eq!(PairToken::balance(&pair.token, ADMIN), 100);
    assert_eq!(PairToken::balance(&pair.token, USER), minted - 100);
    assert!(PairToken::approve(&mut pair.token, USER, ADMIN, 55));
    assert_eq!(PairToken::allowance(&pair.token, USER, ADMIN), 55);
    assert_eq!(
        PairToken::transfer(&mut pair.token, ADMIN, USER, 200),
        Err(raumfi_amm::errors::PairTokenError::InsufficientBalance)
    );
}
