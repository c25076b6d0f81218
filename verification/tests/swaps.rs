//! Simulated swaps.
use std::collections::HashMap;
use uni_v4::arith::{compute_swap_step, get_sqrt_ratio_at_tick, SwapStep, MAX_TICK, MIN_TICK};
use uni_v4::errors::SwapSimulationError;
use uni_v4::liquidity_base::BaselineLiquidity;
use uni_v4::pool_state::{BaselinePoolState, FeeConfiguration};
use uni_v4::pool_swap::{
    price_then_amount_settles_within, protocol_fee, settle_step, PoolSwap, PoolSwapStep,
};
use uni_v4::ray::Ray;
use uni_v4::sqrt_price::SqrtPriceX96;
use uni_v4::tick_info::TickInfo;
use uni_v4::words::{i128_to_i256, I256, U256};

const UNIT: u128 = 1_000_000_000_000_000_000;
const AMOUNT: i128 = 20_000_000_000_000_000;

fn price(value: u128) -> SqrtPriceX96 {
    SqrtPriceX96::from_u256(U256::from_u128(value))
}

fn price_at(tick: i32) -> SqrtPriceX96 {
    SqrtPriceX96::from_u256(get_sqrt_ratio_at_tick(tick).unwrap())
}

fn fees(is_bundle_mode: bool) -> FeeConfiguration {
    FeeConfiguration { is_bundle_mode, bundle_fee: 2500, swap_fee: 3000, protocol_fee: 500 }
}

// one unit of liquidity everywhere and another one from -60 to 60
fn pool(is_bundle_mode: bool) -> BaselinePoolState {
    let mut liquidity = BaselineLiquidity::new(
        60,
        0,
        price_at(0),
        UNIT,
        HashMap::new(),
        HashMap::new(),
    );
    assert!(liquidity.update_liquidity(-60, 60, i128_to_i256(UNIT as i128)));
    BaselinePoolState::new(liquidity, 17, fees(is_bundle_mode))
}

fn step(end_tick: i32, init: bool, liquidity: u128, d_t0: u128, d_t1: u128) -> PoolSwapStep {
    PoolSwapStep { end_tick, init, liquidity, d_t0, d_t1 }
}

#[test]
fn selling_token_zero_across_a_tick() {
    let pool = pool(false);
    let result = pool.swap_current_with_amount(i128_to_i256(AMOUNT), true).unwrap();
    assert_eq!(
        result.steps,
        vec![
            step(0, false, 2 * UNIT, 0, 0),
            step(-60, true, 2 * UNIT, 6026788490956723, 5990709911821561),
            step(-15360, false, UNIT, 13973211509043277, 13658251400516371),
        ]
    );
    assert_eq!(result.start_price, price_at(0));
    assert_eq!(result.start_tick, 0);
    assert_eq!(result.end_price, price(77908727883408741616699834127));
    assert_eq!(result.end_tick, -336);
    assert_eq!(result.total_d_t0, 20000000000000000);
    assert_eq!(result.total_d_t1, 19648961312337932);
    assert_eq!(result.end_liquidity.current_liquidity, UNIT);
    assert_eq!(result.end_liquidity.current_sqrt_price, result.end_price);
    // the protocol takes its share of what comes out
    assert_eq!(result.protocol_fee_amount, 9824480656168);
    assert!(result.protocol_fee_token);
    assert!(result.zero_for_one());
    assert_eq!(result.input(), 20000000000000000);
    assert_eq!(result.output(), 19648961312337932);
    assert_eq!(result.t0_signed(), i128_to_i256(-20000000000000000));
    assert_eq!(result.t1_signed(), i128_to_i256(19648961312337932));
    assert!(!result.was_empty_swap());
}

#[test]
fn selling_token_one_across_a_tick() {
    let pool = pool(false);
    let result = pool.swap_current_with_amount(i128_to_i256(AMOUNT), false).unwrap();
    assert_eq!(
        result.steps,
        vec![
            step(60, true, 2 * UNIT, 5990709911821561, 6026788490956723),
            step(15300, false, UNIT, 13658251400516371, 13973211509043277),
        ]
    );
    assert_eq!(result.end_price, price(80569942622865460749223956378));
    assert_eq!(result.end_tick, 335);
    assert_eq!((result.total_d_t0, result.total_d_t1), (19648961312337932, 20000000000000000));
    assert_eq!(result.protocol_fee_amount, 9824480656168);
    assert!(!result.protocol_fee_token);
    assert_eq!(result.t0_signed(), i128_to_i256(19648961312337932));
    assert_eq!(result.t1_signed(), i128_to_i256(-20000000000000000));
    assert_eq!((result.input(), result.output()), (20000000000000000, 19648961312337932));
}

#[test]
fn buying_an_exact_output() {
    let pool = pool(false);
    let result = pool.swap_current_with_amount(i128_to_i256(-AMOUNT), true).unwrap();
    assert_eq!(result.end_price, price(77880915733213857214256371835));
    assert_eq!(result.end_tick, -344);
    // exactly the output that was asked for
    assert_eq!((result.total_d_t0, result.total_d_t1), (20364251902683475, 20000000000000000));
    // the protocol fee comes on top of what goes in
    assert_eq!(result.protocol_fee_amount, 10187219561122);
    assert!(!result.protocol_fee_token);
    let result = pool.swap_current_with_amount(i128_to_i256(-AMOUNT), false).unwrap();
    assert_eq!(result.end_price, price(80598715054780571235037136340));
    assert_eq!((result.total_d_t0, result.total_d_t1), (20000000000000000, 20364251902683475));
    assert_eq!(result.protocol_fee_amount, 10187219561122);
    assert!(result.protocol_fee_token);
}

#[test]
fn an_exact_input_is_used_up_or_ends_at_the_limit() {
    let pool = pool(false);
    for direction in [true, false] {
        let result = pool.swap_current_with_amount(i128_to_i256(AMOUNT), direction).unwrap();
        assert_eq!(result.input(), AMOUNT as u128);
        assert_eq!(result.zero_for_one(), direction);
        let limit = price_at(if direction { -50 } else { 50 });
        let swap = PoolSwap {
            liquidity: pool.liquidity.current(),
            target_price: Some(limit),
            target_amount: i128_to_i256(AMOUNT),
            direction,
            fee_config: fees(false),
            is_bundle: false,
        };
        let result = swap.swap().unwrap();
        assert!(result.input() < AMOUNT as u128);
        assert_eq!(result.end_price, limit);
        assert_eq!(result.zero_for_one(), direction);
    }
}

#[test]
fn an_exact_output_is_met_or_ends_at_the_limit() {
    let pool = pool(false);
    for direction in [true, false] {
        let result = pool.swap_current_with_amount(i128_to_i256(-AMOUNT), direction).unwrap();
        assert_eq!(result.output(), AMOUNT as u128);
        let limit = price_at(if direction { -50 } else { 50 });
        let swap = PoolSwap {
            liquidity: pool.liquidity.current(),
            target_price: Some(limit),
            target_amount: i128_to_i256(-AMOUNT),
            direction,
            fee_config: fees(false),
            is_bundle: false,
        };
        let result = swap.swap().unwrap();
        assert!(result.output() < AMOUNT as u128);
        assert_eq!(result.end_price, limit);
    }
}

#[test]
fn the_fees_of_a_pool_do_not_matter_to_bundles() {
    let mut dear = pool(true);
    dear.update_fees(9_000, 90_000, 900);
    for amount in [AMOUNT, -AMOUNT] {
        let cheap = pool(true);
        let first = cheap.swap_current_with_amount(i128_to_i256(amount), true).unwrap();
        let second = dear.swap_current_with_amount(i128_to_i256(amount), true).unwrap();
        assert_eq!(first.steps, second.steps);
        assert_eq!(first.end_price, second.end_price);
        assert_eq!((first.protocol_fee_amount, second.protocol_fee_amount), (0, 0));
    }
}

#[test]
fn a_swap_ends_at_the_end_of_the_grid() {
    let pool = pool(false);
    let all = i128_to_i256(i128::MAX);
    let down = pool.swap_current_with_amount(all, true).unwrap();
    assert_eq!(down.end_price, price(4295128740));
    assert!(down.input() < i128::MAX as u128);
    let up = pool.swap_current_with_amount(all, false).unwrap();
    assert_eq!(
        up.end_price.to_u256(),
        U256 { l0: 6743328256752651557, l1: 17280870778742802505, l2: 4294805859, l3: 0 }
    );
    assert!(up.input() < i128::MAX as u128);
    // one step for each word of the bitmap, and one for each tick that is set
    assert!(down.steps.len() <= 62 && up.steps.len() <= 62);
}

#[test]
fn a_step_stays_between_its_prices() {
    let (low, high) = (price_at(-60).to_u256(), price_at(60).to_u256());
    for amount in [1i128, 1_000, AMOUNT / 10, AMOUNT, 100 * AMOUNT] {
        for (current, target) in [(low, high), (high, low)] {
            let paid = i128_to_i256(amount);
            let step = compute_swap_step(current, target, UNIT, paid, 3000).unwrap();
            assert!(!step.sqrt_price_next.lt(&low) && !high.lt(&step.sqrt_price_next));
            let taken = step.amount_in.wrapping_add(&step.fee_amount).to_u128().unwrap();
            assert!(taken <= amount as u128);
            assert!(step.sqrt_price_next.same(&target) || taken == amount as u128);
            let owed = i128_to_i256(-amount);
            let step = compute_swap_step(current, target, UNIT, owed, 3000).unwrap();
            assert!(!step.sqrt_price_next.lt(&low) && !high.lt(&step.sqrt_price_next));
            let given = step.amount_out.to_u128().unwrap();
            assert!(given <= amount as u128);
            assert!(step.sqrt_price_next.same(&target) || given == amount as u128);
        }
    }
}

#[test]
fn prices_rise_with_ticks() {
    let mut last = get_sqrt_ratio_at_tick(MIN_TICK).unwrap();
    assert_eq!(last, U256::from_u128(4295128739));
    let near_ends = (MIN_TICK + 1..MIN_TICK + 500).chain(-500..500);
    for tick in near_ends.chain(MAX_TICK - 500..=MAX_TICK) {
        let next = get_sqrt_ratio_at_tick(tick).unwrap();
        assert!(last.lt(&next));
        last = next;
    }
    assert_eq!(
        last,
        U256 { l0: 6743328256752651558, l1: 17280870778742802505, l2: 4294805859, l3: 0 }
    );
    assert!(get_sqrt_ratio_at_tick(MIN_TICK - 1).is_err());
    assert!(get_sqrt_ratio_at_tick(MAX_TICK + 1).is_err());
}

#[test]
fn bundles_swap_without_fees() {
    let pool = pool(true);
    let result = pool.swap_current_with_amount(i128_to_i256(AMOUNT), true).unwrap();
    assert!(result.is_bundle);
    assert_eq!(result.end_price, price(77904131478604376318859196312));
    assert_eq!((result.total_d_t0, result.total_d_t1), (20000000000000000, 19706976097213673));
    assert_eq!(result.protocol_fee_amount, 0);
    assert!(!result.protocol_fee_token);
}

#[test]
fn swapping_to_a_price() {
    let pool = pool(false);
    let down = pool.swap_current_to_price_raw(price_at(-50)).unwrap();
    assert_eq!(down.end_price, price_at(-50));
    assert_eq!(down.end_tick, -50);
    assert_eq!((down.total_d_t0, down.total_d_t1), (5021067805948910, 4993505845907373));
    assert_eq!(down.protocol_fee_amount, 2496752922953);
    let up = pool.swap_current_to_price_raw(price_at(70)).unwrap();
    assert_eq!(up.end_price, price_at(70));
    assert_eq!((up.total_d_t0, up.total_d_t1), (6489062718535033, 6529900313922945));
    assert_eq!(up.protocol_fee_amount, 3244531359267);
    // as a swap of the amount that goes in, it ends next to that price
    let as_amount = pool.swap_current_to_price(price_at(-50)).unwrap();
    assert_eq!(as_amount.end_price, price(79030349367926598374999035289));
    assert_eq!(as_amount.end_tick, -51);
    assert_eq!((as_amount.total_d_t0, as_amount.total_d_t1), (5021067805948910, 4993505845907373));
    assert!(price_then_amount_settles_within(
        pool.liquidity.current(),
        price_at(-50),
        true,
        fees(false),
        false,
        100
    ));
}

#[test]
fn a_swap_of_nothing_is_empty() {
    let pool = pool(false);
    let noop = pool.noop();
    for result in [
        pool.swap_current_with_amount(I256::zero(), true).unwrap(),
        pool.swap_current_to_price_raw(price_at(0)).unwrap(),
        noop,
    ] {
        assert!(result.was_empty_swap());
        assert!(result.steps.is_empty());
        assert_eq!((result.total_d_t0, result.total_d_t1), (0, 0));
        assert_eq!(result.protocol_fee_amount, 0);
        assert_eq!(result.end_price, price_at(0));
        assert_eq!(result.end_tick, 0);
        assert_eq!(result.end_liquidity.current_liquidity, 2 * UNIT);
        assert_eq!(result.t0_signed(), I256::zero());
    }
}

#[test]
fn swaps_follow_one_another() {
    let pool = pool(false);
    let first = pool.swap_current_to_price_raw(price_at(-50)).unwrap();
    let second = first.swap_to_price(price_at(-30)).unwrap();
    assert_eq!(second.start_price, price_at(-50));
    assert_eq!(second.end_price, price(79109415290437042325368897837));
    assert_eq!((second.total_d_t0, second.total_d_t1), (2003903692258003, 2001910217170654));
    let third = second.swap_to_amount(i128_to_i256(1000), true).unwrap();
    assert_eq!(third.start_price, second.end_price);
    assert_eq!(third.total_d_t0, 1000);
    let copy = third.clone();
    assert_eq!(copy.steps, third.steps);
    assert_eq!(copy.end_price, third.end_price);
}

#[test]
fn enough_steps_change_nothing() {
    let pool = pool(false);
    let amount = i128_to_i256(AMOUNT);
    // three steps are needed
    assert!(pool.swap_current_with_amount_within(amount, true, 2).is_none());
    for steps in [3u64, 4, 1000] {
        let result = pool.swap_current_with_amount_within(amount, true, steps).unwrap().unwrap();
        assert_eq!(result.steps.len(), 3);
        assert_eq!(result.total_d_t1, 19648961312337932);
    }
    assert!(pool.swap_current_to_price_within(price_at(-50), 1).is_none());
    let to_price = pool.swap_current_to_price_within(price_at(-50), 10).unwrap().unwrap();
    assert_eq!(to_price.end_price, price(79030349367926598374999035289));
    let raw = pool.swap_current_to_price_raw_within(price_at(70), 10).unwrap().unwrap();
    assert_eq!(raw.end_price, price_at(70));
    assert!(raw.swap_to_price_within(price_at(60), 10).unwrap().is_ok());
    assert!(raw.swap_to_amount_within(amount, true, 10).unwrap().is_ok());
    assert!(raw.swap_to_amount_within(amount, true, 0).is_none());
}

#[test]
fn a_price_on_the_wrong_side_is_refused() {
    let pool = pool(false);
    let swap = PoolSwap {
        liquidity: pool.liquidity.current(),
        target_price: Some(price_at(10)),
        target_amount: i128_to_i256(AMOUNT),
        direction: true,
        fee_config: fees(false),
        is_bundle: false,
    };
    assert!(swap.settles_within(0));
    assert!(matches!(swap.swap(), Err(SwapSimulationError::InvalidSqrtPriceLimit)));
}

#[test]
fn a_swap_needs_a_tick_spacing() {
    let mut pool = pool(false);
    pool.liquidity.tick_spacing = 0;
    assert!(matches!(
        pool.swap_current_with_amount(i128_to_i256(AMOUNT), true),
        Err(SwapSimulationError::InvalidTick)
    ));
}

#[test]
fn the_price_arithmetic_can_fail() {
    let mut pool = pool(false);
    // there is no price of zero
    pool.update_slot0(0, SqrtPriceX96::from_u256(U256::zero()), UNIT);
    let result = pool.swap_current_with_amount_within(i128_to_i256(AMOUNT), false, 100);
    assert!(matches!(result, Some(Err(SwapSimulationError::UniswapV3MathError(_)))));
}

#[test]
fn crossing_must_not_take_more_than_there_is() {
    let mut pool = pool(false);
    // a tick that takes more away than is there
    pool.liquidity
        .initialized_ticks
        .insert(-60, TickInfo { liquidity_net: 3 * UNIT as i128, initialized: true });
    assert!(matches!(
        pool.swap_current_with_amount(i128_to_i256(AMOUNT), true),
        Err(SwapSimulationError::LiquidityUnderflow)
    ));
}

#[test]
fn protocol_fees() {
    assert_eq!(protocol_fee(1_000_000, 500, true), 500);
    assert_eq!(protocol_fee(1_999, 500, true), 0);
    assert_eq!(protocol_fee(999_500, 500, false), 500);
    assert_eq!(protocol_fee(0, 0, false), 0);
    // held at the largest amount
    assert_eq!(protocol_fee(u128::MAX, u32::MAX, true), u128::MAX);
}

#[test]
fn steps_are_booked_on_both_sides() {
    let step = SwapStep {
        sqrt_price_next: U256::from_u128(1),
        amount_in: U256::from_u128(90),
        amount_out: U256::from_u128(80),
        fee_amount: U256::from_u128(10),
    };
    let (left, t0, t1) = settle_step(true, true, i128_to_i256(250), &step).unwrap();
    assert_eq!((left, t0, t1), (i128_to_i256(150), 100, 80));
    let (left, t0, t1) = settle_step(false, true, i128_to_i256(250), &step).unwrap();
    assert_eq!((left, t0, t1), (i128_to_i256(150), 80, 100));
    let (left, t0, t1) = settle_step(true, false, i128_to_i256(-250), &step).unwrap();
    assert_eq!((left, t0, t1), (i128_to_i256(-170), 100, 80));
    let too_much = SwapStep { amount_out: U256 { l0: 0, l1: 0, l2: 1, l3: 0 }, ..step };
    assert!(settle_step(true, true, i128_to_i256(250), &too_much).is_none());
}

#[test]
fn the_average_price_of_a_step() {
    assert_eq!(step(0, false, 1, 0, 5).avg_price(), None);
    assert!(step(0, false, 1, 5, 0).empty());
    assert_eq!(
        step(0, false, 1, 4, 10).avg_price(),
        Some(Ray { value: U256::from_u128(2_500_000_000_000_000_000_000_000_000) })
    );
}

#[test]
fn the_state_of_a_pool() {
    let mut state = pool(true);
    assert_eq!(state.block_number(), 17);
    assert_eq!(state.fee(), 2500);
    assert_eq!(pool(false).fee(), 3000);
    assert!(state.is_bundle_mode());
    assert_eq!((state.bundle_fee(), state.swap_fee(), state.protocol_fee()), (2500, 3000, 500));
    assert_eq!(state.current_tick(), 0);
    assert_eq!(state.current_liquidity(), 2 * UNIT);
    assert_eq!(state.current_price(), price_at(0));
    assert_eq!(state.tick_spacing(), 60);
    state.update_fees(1, 2, 3);
    assert_eq!((state.bundle_fee(), state.swap_fee(), state.protocol_fee()), (1, 2, 3));
    assert!(state.fee_config().is_bundle_mode);
    state.update_slot0(61, price_at(61), 5);
    assert_eq!((state.current_tick(), state.current_liquidity()), (61, 5));
    assert_eq!(state.current_price(), price_at(61));
    state.update_liquidity(0, 120, i128_to_i256(6));
    assert_eq!(state.current_liquidity(), 11);
    // a change that does not fit changes nothing
    state.update_liquidity(0, 120, i128_to_i256(-12));
    assert_eq!(state.current_liquidity(), 11);
}
