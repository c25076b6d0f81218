//! The bitmap of initialized ticks and the liquidity between them.
use std::collections::HashMap;
use uni_v4::arith::{get_sqrt_ratio_at_tick, MAX_TICK, MIN_TICK};
use uni_v4::baseline_pool_factory::{apply_ticks, TickData};
use uni_v4::errors::SwapSimulationError;
use uni_v4::liquidity_base::{add_signed, sub_signed, BaselineLiquidity};
use uni_v4::sqrt_price::SqrtPriceX96;
use uni_v4::tick_bitmap::{
    flip_tick_if_not_init, floor_div, merge_words, next_initialized_tick_within_one_word,
    set_word_bit, test_word_bit,
};
use uni_v4::tick_info::TickInfo;
use uni_v4::words::{i128_to_i256, U256};

fn price_at(tick: i32) -> SqrtPriceX96 {
    SqrtPriceX96::from_u256(get_sqrt_ratio_at_tick(tick).unwrap())
}

fn empty_liquidity(spacing: i32, tick: i32, liquidity: u128) -> BaselineLiquidity {
    BaselineLiquidity::new(
        spacing,
        tick,
        price_at(tick),
        liquidity,
        HashMap::new(),
        HashMap::new(),
    )
}

#[test]
fn bits_of_a_word() {
    let mut word = U256::zero();
    for bit in [0u8, 63, 64, 200, 255] {
        assert!(!test_word_bit(word, bit));
        word = set_word_bit(word, bit);
        assert!(test_word_bit(word, bit));
    }
    assert_eq!(word, U256 { l0: 0x8000_0000_0000_0001, l1: 1, l2: 0, l3: 0x8000_0000_0000_0100 });
    // setting a bit again changes nothing
    assert_eq!(set_word_bit(word, 64), word);
    let other = set_word_bit(U256::zero(), 130);
    let both = merge_words(word, other);
    assert!(test_word_bit(both, 130) && test_word_bit(both, 63));
    assert_eq!(merge_words(both, other), both);
}

#[test]
fn quotients_round_down() {
    assert_eq!(floor_div(7, 2), 3);
    assert_eq!(floor_div(-7, 2), -4);
    assert_eq!(floor_div(-8, 2), -4);
    assert_eq!(floor_div(-1, 60), -1);
}

#[test]
fn a_flipped_tick_is_found() {
    let mut bitmap: HashMap<i16, U256> = HashMap::new();
    flip_tick_if_not_init(&mut bitmap, 120, 60);
    flip_tick_if_not_init(&mut bitmap, 120, 60);
    flip_tick_if_not_init(&mut bitmap, -60, 60);
    assert_eq!(bitmap.len(), 2);
    assert_eq!(bitmap[&0], U256 { l0: 4, l1: 0, l2: 0, l3: 0 });
    assert_eq!(bitmap[&-1], U256 { l0: 0, l1: 0, l2: 0, l3: 0x8000_0000_0000_0000 });
    // up from zero, down from above, down from below zero
    assert_eq!(next_initialized_tick_within_one_word(&bitmap, 0, 60, false), (120, true));
    assert_eq!(next_initialized_tick_within_one_word(&bitmap, 125, 60, true), (120, true));
    assert_eq!(next_initialized_tick_within_one_word(&bitmap, -1, 60, true), (-60, true));
    // the search starts at the tick itself downwards, and above it upwards
    assert_eq!(next_initialized_tick_within_one_word(&bitmap, 120, 60, true), (120, true));
    assert_eq!(
        next_initialized_tick_within_one_word(&bitmap, 120, 60, false),
        (255 * 60, false)
    );
}

#[test]
fn the_search_ends_with_the_word() {
    let bitmap: HashMap<i16, U256> = HashMap::new();
    assert_eq!(next_initialized_tick_within_one_word(&bitmap, 5, 1, true), (0, false));
    assert_eq!(next_initialized_tick_within_one_word(&bitmap, 5, 1, false), (255, false));
    assert_eq!(next_initialized_tick_within_one_word(&bitmap, -1, 1, true), (-256, false));
    assert_eq!(next_initialized_tick_within_one_word(&bitmap, 255, 1, false), (511, false));
    // and stays within the price grid
    assert_eq!(
        next_initialized_tick_within_one_word(&bitmap, MAX_TICK - 5, 10, false),
        (MAX_TICK, false)
    );
    assert_eq!(
        next_initialized_tick_within_one_word(&bitmap, MIN_TICK + 5, 10, true),
        (MIN_TICK, false)
    );
}

#[test]
fn signed_amounts_must_fit() {
    assert_eq!(add_signed(5, -5), Some(0));
    assert_eq!(add_signed(5, -6), None);
    assert_eq!(add_signed(u128::MAX, 1), None);
    assert_eq!(add_signed(0, i128::MIN), None);
    assert_eq!(add_signed(1u128 << 127, i128::MIN), Some(0));
    assert_eq!(sub_signed(5, 5), Some(0));
    assert_eq!(sub_signed(5, 6), None);
    assert_eq!(sub_signed(0, i128::MIN), Some(1u128 << 127));
    assert_eq!(sub_signed(u128::MAX, -1), None);
}

#[test]
fn a_position_moves_the_ends_and_the_middle() {
    let mut liquidity = empty_liquidity(60, 0, 1000);
    assert!(liquidity.update_liquidity(-120, 180, i128_to_i256(500)));
    assert_eq!(liquidity.start_liquidity, 1500);
    assert_eq!(
        liquidity.initialized_ticks[&-120],
        TickInfo { liquidity_net: 500, initialized: true }
    );
    assert_eq!(
        liquidity.initialized_ticks[&180],
        TickInfo { liquidity_net: -500, initialized: true }
    );
    // a position away from the price leaves the liquidity in range alone
    assert!(liquidity.update_liquidity(60, 180, i128_to_i256(70)));
    assert_eq!(liquidity.start_liquidity, 1500);
    assert_eq!(liquidity.initialized_ticks[&180].liquidity_net, -570);
    // both ends are marked
    let point = liquidity.current();
    assert_eq!(
        point.get_to_next_initialized_tick_within_one_word(false).unwrap(),
        (60, 1500, true)
    );
}

#[test]
fn the_opposite_position_restores_the_liquidity() {
    let mut liquidity = empty_liquidity(10, 35, 77);
    assert!(liquidity.update_liquidity(-20, 40, i128_to_i256(12)));
    assert!(liquidity.update_liquidity(30, 50, i128_to_i256(9)));
    let before = liquidity.clone();
    assert!(liquidity.update_liquidity(30, 60, i128_to_i256(1234)));
    assert!(liquidity.update_liquidity(30, 60, i128_to_i256(-1234)));
    assert_eq!(liquidity.start_liquidity, before.start_liquidity);
    for (tick, info) in &before.initialized_ticks {
        assert_eq!(liquidity.initialized_ticks[tick].liquidity_net, info.liquidity_net);
    }
    assert_eq!(liquidity.initialized_ticks[&60].liquidity_net, 0);
}

#[test]
fn a_position_that_does_not_fit_is_refused() {
    let mut liquidity = empty_liquidity(10, 0, 5);
    assert!(!liquidity.update_liquidity(-10, 10, i128_to_i256(-6)));
    assert_eq!(liquidity.start_liquidity, 5);
    assert!(liquidity.initialized_ticks.is_empty());
    let too_large = i128_to_i256(i128::MAX).saturating_add(&i128_to_i256(1));
    assert!(!liquidity.update_liquidity(-10, 10, too_large));
}

#[test]
fn loaded_ticks_are_marked() {
    let fetched = vec![
        TickData { tick: -120, initialized: true, liquidity_net: 4 },
        TickData { tick: -60, initialized: false, liquidity_net: 99 },
        TickData { tick: 0, initialized: true, liquidity_net: 5 },
        TickData { tick: 60, initialized: true, liquidity_net: -9 },
        TickData { tick: 60, initialized: true, liquidity_net: -8 },
    ];
    let (ticks, bitmap) = apply_ticks(&fetched, 60);
    assert_eq!(ticks.len(), 3);
    assert_eq!(ticks[&-120], TickInfo { liquidity_net: 4, initialized: true });
    // the last entry of a tick stands
    assert_eq!(ticks[&60], TickInfo { liquidity_net: -8, initialized: true });
    assert!(!ticks.contains_key(&-60));
    assert_eq!(bitmap[&0], U256 { l0: 3, l1: 0, l2: 0, l3: 0 });
    assert_eq!(bitmap[&-1], U256 { l0: 0, l1: 0, l2: 0, l3: 0x4000_0000_0000_0000 });
}

#[test]
fn more_ticks_keep_the_marks() {
    let mut liquidity = empty_liquidity(60, 0, 1000);
    liquidity.update_liquidity(60, 120, i128_to_i256(5));
    let (ticks, bitmap) =
        apply_ticks(&vec![TickData { tick: 180, initialized: true, liquidity_net: 3 }], 60);
    liquidity.extend_ticks(&ticks);
    liquidity.extend_tick_bitmap(&bitmap);
    assert_eq!(liquidity.initialized_ticks.len(), 3);
    // the marks of 60 and 120 and the one of 180 stand in one word
    assert_eq!(liquidity.tick_bitmap[&0], U256 { l0: 2 + 4 + 8, l1: 0, l2: 0, l3: 0 });
    // a tick that is loaded anew replaces the one that is there
    let again = HashMap::from([(60, TickInfo { liquidity_net: 8, initialized: true })]);
    liquidity.extend_ticks(&again);
    assert_eq!(liquidity.initialized_ticks[&60].liquidity_net, 8);
    liquidity.update_tick_bitmap(0, U256 { l0: 1, l1: 0, l2: 0, l3: 0 });
    liquidity.update_tick_bitmap(3, U256 { l0: 7, l1: 0, l2: 0, l3: 0 });
    assert_eq!(liquidity.tick_bitmap[&0].l0, 15);
    assert_eq!(liquidity.tick_bitmap[&3].l0, 7);
}

#[test]
fn a_point_needs_a_tick_spacing() {
    let liquidity = empty_liquidity(0, 0, 1000);
    let mut point = liquidity.current();
    assert!(matches!(
        point.get_to_next_initialized_tick_within_one_word(true),
        Err(SwapSimulationError::InvalidTick)
    ));
    assert!(matches!(
        point.move_to_next_tick(U256::from_u128(1), true, true, true),
        Err(SwapSimulationError::InvalidTick)
    ));
}

#[test]
fn crossing_a_tick_moves_the_liquidity() {
    let mut liquidity = empty_liquidity(60, 0, 1000);
    liquidity.update_liquidity(-60, 60, i128_to_i256(400));
    let mut up = liquidity.current();
    up.move_to_next_tick(get_sqrt_ratio_at_tick(60).unwrap(), false, true, true).unwrap();
    assert_eq!((up.current_tick, up.current_liquidity), (60, 1000));
    // down: first the boundary of the word at zero, then the tick below
    let mut down = liquidity.current();
    down.move_to_next_tick(get_sqrt_ratio_at_tick(0).unwrap(), true, true, false).unwrap();
    assert_eq!((down.current_tick, down.current_liquidity), (-1, 1400));
    down.move_to_next_tick(get_sqrt_ratio_at_tick(-60).unwrap(), true, true, true).unwrap();
    assert_eq!((down.current_tick, down.current_liquidity), (-61, 1000));
    // a step that ends between ticks takes the tick of the price
    let mut between = liquidity.current();
    between.move_to_next_tick(get_sqrt_ratio_at_tick(17).unwrap(), false, false, true).unwrap();
    assert_eq!((between.current_tick, between.current_liquidity), (17, 1400));
    // and one that did not move keeps it
    between.move_to_next_tick(get_sqrt_ratio_at_tick(17).unwrap(), false, false, false).unwrap();
    assert_eq!(between.current_tick, 17);
    between.set_sqrt_price(get_sqrt_ratio_at_tick(17).unwrap());
    assert_eq!(between.current_sqrt_price, price_at(17));
}
