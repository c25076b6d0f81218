//! Words, prices and the arithmetic on them.
use alloy_primitives::{I256 as WideInt, U256 as WideUint};
use uni_v4::arith::{
    compute_swap_step, get_sqrt_ratio_at_tick, get_tick_at_sqrt_ratio, MAX_TICK, MIN_TICK,
};
use uni_v4::ray::Ray;
use uni_v4::sqrt_price::SqrtPriceX96;
use uni_v4::words::{i128_to_i256, Address, I256, U160, U256};

fn wide(x: U256) -> WideUint {
    WideUint::from_limbs([x.l0, x.l1, x.l2, x.l3])
}

fn narrow(x: WideUint) -> U256 {
    let limbs = x.into_limbs();
    U256 { l0: limbs[0], l1: limbs[1], l2: limbs[2], l3: limbs[3] }
}

fn signed(x: i128) -> I256 {
    i128_to_i256(x)
}

fn wide_signed(x: I256) -> WideInt {
    WideInt::from_raw(wide(x.raw))
}

fn samples() -> Vec<WideUint> {
    vec![
        WideUint::ZERO,
        WideUint::from(1u64),
        WideUint::from(u64::MAX),
        WideUint::from(u128::MAX),
        WideUint::from(1u64) << 128,
        (WideUint::from(1u64) << 255) - WideUint::from(1u64),
        WideUint::from(1u64) << 255,
        WideUint::MAX - WideUint::from(7u64),
        WideUint::MAX,
    ]
}

#[test]
fn unsigned_words_wrap_around() {
    for a in samples() {
        for b in samples() {
            assert_eq!(wide(narrow(a).wrapping_add(&narrow(b))), a.wrapping_add(b));
            assert_eq!(wide(narrow(a).wrapping_sub(&narrow(b))), a.wrapping_sub(b));
            assert_eq!(wide(narrow(a).wrapping_mul(&narrow(b))), a.wrapping_mul(b));
            if b != WideUint::ZERO {
                assert_eq!(wide(narrow(a).wrapping_div(&narrow(b))), a / b);
            }
            assert_eq!(narrow(a).lt(&narrow(b)), a < b);
            assert_eq!(narrow(a).same(&narrow(b)), a == b);
        }
    }
    let one = U256::from_u128(1);
    let all_ones = U256 { l0: u64::MAX, l1: u64::MAX, l2: u64::MAX, l3: u64::MAX };
    assert_eq!(all_ones.wrapping_add(&one), U256::zero());
    assert_eq!(U256::zero().wrapping_sub(&one), all_ones);
    assert_eq!(U256::from_u128(7).wrapping_div(&U256::from_u128(2)), U256::from_u128(3));
    assert_eq!(U256::from_u128(7).wrapping_mul(&U256::from_u128(6)), U256::from_u128(42));
}

#[test]
fn signed_words_saturate() {
    for a in samples() {
        for b in samples() {
            let x = I256::from_raw(narrow(a));
            let y = I256::from_raw(narrow(b));
            let (wx, wy) = (WideInt::from_raw(a), WideInt::from_raw(b));
            assert_eq!(wide_signed(x.saturating_add(&y)), wx.saturating_add(wy));
            assert_eq!(wide_signed(x.saturating_sub(&y)), wx.saturating_sub(wy));
            assert_eq!(x.lt(&y), wx < wy);
        }
        let x = I256::from_raw(narrow(a));
        let wx = WideInt::from_raw(a);
        if wx != WideInt::MIN {
            assert_eq!(wide_signed(x.neg()), -wx);
        }
        assert_eq!(x.is_negative(), wx < WideInt::ZERO);
        assert_eq!(x.is_positive(), wx > WideInt::ZERO);
        assert_eq!(x.is_zero(), wx == WideInt::ZERO);
    }
    assert_eq!(I256::max().saturating_add(&signed(1)), I256::max());
    assert_eq!(signed(5).saturating_sub(&signed(8)), signed(-3));
    assert_eq!(signed(-3).neg(), signed(3));
}

#[test]
fn words_convert_to_machine_integers() {
    assert_eq!(U256::from_u128(u128::MAX).to_u128(), Some(u128::MAX));
    let above = U256::from_u128(u128::MAX).wrapping_add(&U256::from_u128(1));
    assert_eq!(above.to_u128(), None);
    assert_eq!(above.saturating_to_u128(), u128::MAX);
    assert_eq!(U256::from_u128(9).saturating_to_u128(), 9);
    for n in [0i128, 1, -1, i128::MAX, i128::MIN] {
        assert_eq!(signed(n).to_i128(), Some(n));
    }
    assert_eq!(signed(i128::MAX).saturating_add(&signed(1)).to_i128(), None);
    assert_eq!(signed(i128::MIN).saturating_sub(&signed(1)).to_i128(), None);
    let price = U160 { hi: 3, lo: 5 };
    assert_eq!(wide(price.to_u256()), (WideUint::from(3u64) << 128) + WideUint::from(5u64));
    assert!(Address { hi: 0, lo: u128::MAX }.lt(&Address { hi: 1, lo: 0 }));
    assert!(!Address::zero().lt(&Address::zero()));
}

#[test]
fn ticks_have_their_prices() {
    // 2^96, the price one
    assert_eq!(
        wide(get_sqrt_ratio_at_tick(0).unwrap()),
        WideUint::from(79228162514264337593543950336u128)
    );
    assert_eq!(
        wide(get_sqrt_ratio_at_tick(50).unwrap()),
        WideUint::from(79426470787362580746886972461u128)
    );
    assert_eq!(wide(get_sqrt_ratio_at_tick(MIN_TICK).unwrap()), WideUint::from(4295128739u64));
    assert_eq!(
        wide(get_sqrt_ratio_at_tick(MAX_TICK).unwrap()).to_string(),
        "1461446703485210103287273052203988822378723970342"
    );
    assert!(get_sqrt_ratio_at_tick(MIN_TICK - 1).is_err());
    assert!(get_sqrt_ratio_at_tick(MAX_TICK + 1).is_err());
}

#[test]
fn prices_lie_in_their_ticks() {
    for tick in [MIN_TICK, -100_000, -60, -1, 0, 1, 60, 100_000, MAX_TICK - 1] {
        let price = get_sqrt_ratio_at_tick(tick).unwrap();
        assert_eq!(get_tick_at_sqrt_ratio(price).unwrap(), tick);
    }
    let one = U256::from_u128(1);
    let at_first = get_sqrt_ratio_at_tick(MIN_TICK).unwrap();
    assert!(get_tick_at_sqrt_ratio(at_first.wrapping_sub(&one)).is_err());
    let at_last = get_sqrt_ratio_at_tick(MAX_TICK).unwrap();
    assert!(get_tick_at_sqrt_ratio(at_last).is_err());
    assert_eq!(get_tick_at_sqrt_ratio(at_last.wrapping_sub(&one)).unwrap(), MAX_TICK - 1);
}

#[test]
fn one_step_of_a_swap() {
    let current = get_sqrt_ratio_at_tick(0).unwrap();
    let target = get_sqrt_ratio_at_tick(-600).unwrap();
    let liquidity: u128 = 1_000_000_000_000_000_000;
    let step =
        compute_swap_step(current, target, liquidity, signed(1_000_000_000_000_000), 3000).unwrap();
    assert_eq!(wide(step.sqrt_price_next), WideUint::from(79149250711305166342700278159u128));
    assert_eq!(step.amount_in, U256::from_u128(997_000_000_000_000));
    assert_eq!(step.amount_out, U256::from_u128(996_006_981_039_903));
    assert_eq!(step.fee_amount, U256::from_u128(3_000_000_000_000));
    // an exact output is never overpaid
    let out = compute_swap_step(current, target, liquidity, signed(-1000), 3000).unwrap();
    assert_eq!(out.amount_out, U256::from_u128(1000));
    // a price of zero is an error of the arithmetic
    assert!(compute_swap_step(current, U256::zero(), liquidity, signed(1000), 3000).is_err());
}

#[test]
fn rays_have_twenty_seven_digits() {
    let ray = Ray::calc_price(U256::from_u128(2), U256::from_u128(3));
    assert_eq!(ray.value, U256::from_u128(1_500_000_000_000_000_000_000_000_000));
    let third = Ray::calc_price(U256::from_u128(3), U256::from_u128(1));
    assert_eq!(third.value, U256::from_u128(333_333_333_333_333_333_333_333_333));
}

#[test]
fn prices_compare_as_their_words() {
    let low = SqrtPriceX96::from_u160(U160 { hi: 0, lo: 1 });
    let high = SqrtPriceX96::from_u256(U256 { l0: 0, l1: 0, l2: 1, l3: 0 });
    assert!(low.lt(&high));
    assert!(!high.lt(&low));
    assert_eq!(high.to_u256(), U256 { l0: 0, l1: 0, l2: 1, l3: 0 });
}
