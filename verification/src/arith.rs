//! 256-bit arithmetic and Uniswap's price arithmetic, as the crates
//! `alloy_primitives` and `uniswap_v3_math` compute them.
use vstd::prelude::*;

use crate::words::{half_256, limbs_value, modulus_256, I256, U256};

verus! {

/// `alloy_primitives::U256::wrapping_add`: the sum modulo `2^256`.
#[verifier::external_body]
fn add_limbs(a: [u64; 4], b: [u64; 4]) -> (r: [u64; 4])
    ensures
        limbs_value(r@) == (limbs_value(a@) + limbs_value(b@)) as int % modulus_256(),
{
    let x = alloy_primitives::U256::from_limbs(a);
    x.wrapping_add(alloy_primitives::U256::from_limbs(b)).into_limbs()
}

/// `alloy_primitives::U256::wrapping_sub`: the difference modulo `2^256`.
#[verifier::external_body]
fn sub_limbs(a: [u64; 4], b: [u64; 4]) -> (r: [u64; 4])
    ensures
        limbs_value(r@) == (limbs_value(a@) - limbs_value(b@)) % modulus_256(),
{
    let x = alloy_primitives::U256::from_limbs(a);
    x.wrapping_sub(alloy_primitives::U256::from_limbs(b)).into_limbs()
}

/// `alloy_primitives::U256::wrapping_mul`: the product modulo `2^256`.
#[verifier::external_body]
fn mul_limbs(a: [u64; 4], b: [u64; 4]) -> (r: [u64; 4])
    ensures
        limbs_value(r@) == (limbs_value(a@) * limbs_value(b@)) as int % modulus_256(),
{
    let x = alloy_primitives::U256::from_limbs(a);
    x.wrapping_mul(alloy_primitives::U256::from_limbs(b)).into_limbs()
}

/// `alloy_primitives::U256::wrapping_div`: the quotient, rounded down. It
/// panics on a zero divisor, which the precondition leaves out.
#[verifier::external_body]
fn div_limbs(a: [u64; 4], b: [u64; 4]) -> (r: [u64; 4])
    requires
        limbs_value(b@) != 0,
    ensures
        limbs_value(r@) == limbs_value(a@) / limbs_value(b@),
{
    let x = alloy_primitives::U256::from_limbs(a);
    x.wrapping_div(alloy_primitives::U256::from_limbs(b)).into_limbs()
}

/// The number that four limbs spell out in two's complement.
pub open spec fn signed_limbs_value(limbs: Seq<u64>) -> int {
    if limbs_value(limbs) < half_256() {
        limbs_value(limbs) as int
    } else {
        limbs_value(limbs) - modulus_256()
    }
}

/// The signed word nearest to `n`.
pub open spec fn clamp_i256(n: int) -> int {
    if n < -half_256() {
        -half_256()
    } else if n >= half_256() {
        half_256() - 1
    } else {
        n
    }
}

/// `alloy_primitives::I256::saturating_add`: the sum, held at the bounds of
/// the type.
#[verifier::external_body]
fn saturating_add_limbs(a: [u64; 4], b: [u64; 4]) -> (r: [u64; 4])
    ensures
        signed_limbs_value(r@) == clamp_i256(signed_limbs_value(a@) + signed_limbs_value(b@)),
{
    let x = alloy_primitives::I256::from_limbs(a);
    x.saturating_add(alloy_primitives::I256::from_limbs(b)).into_limbs()
}

/// `alloy_primitives::I256::saturating_sub`: the difference, held at the
/// bounds of the type.
#[verifier::external_body]
fn saturating_sub_limbs(a: [u64; 4], b: [u64; 4]) -> (r: [u64; 4])
    ensures
        signed_limbs_value(r@) == clamp_i256(signed_limbs_value(a@) - signed_limbs_value(b@)),
{
    let x = alloy_primitives::I256::from_limbs(a);
    x.saturating_sub(alloy_primitives::I256::from_limbs(b)).into_limbs()
}

/// Negation of an `alloy_primitives::I256`. The smallest number has none, and
/// the precondition leaves it out.
#[verifier::external_body]
fn neg_limbs(a: [u64; 4]) -> (r: [u64; 4])
    requires
        signed_limbs_value(a@) != -half_256(),
    ensures
        signed_limbs_value(r@) == -signed_limbs_value(a@),
{
    (-alloy_primitives::I256::from_limbs(a)).into_limbs()
}

impl U256 {
    /// The sum modulo `2^256`.
    pub fn wrapping_add(&self, other: &U256) -> (r: U256)
        ensures
            r@ == (self@ + other@) as int % modulus_256(),
    {
        U256::from_limbs(add_limbs(self.limbs(), other.limbs()))
    }

    /// The difference modulo `2^256`.
    pub fn wrapping_sub(&self, other: &U256) -> (r: U256)
        ensures
            r@ == (self@ - other@) % modulus_256(),
    {
        U256::from_limbs(sub_limbs(self.limbs(), other.limbs()))
    }

    /// The product modulo `2^256`.
    pub fn wrapping_mul(&self, other: &U256) -> (r: U256)
        ensures
            r@ == (self@ * other@) as int % modulus_256(),
    {
        U256::from_limbs(mul_limbs(self.limbs(), other.limbs()))
    }

    /// The quotient, rounded down.
    pub fn wrapping_div(&self, other: &U256) -> (r: U256)
        requires
            other@ != 0,
        ensures
            r@ == self@ / other@,
    {
        U256::from_limbs(div_limbs(self.limbs(), other.limbs()))
    }
}

impl I256 {
    /// The sum, held at the bounds of the type.
    pub fn saturating_add(&self, other: &I256) -> (r: I256)
        ensures
            r@ == clamp_i256(self@ + other@),
    {
        I256 { raw: U256::from_limbs(saturating_add_limbs(self.raw.limbs(), other.raw.limbs())) }
    }

    /// The difference, held at the bounds of the type.
    pub fn saturating_sub(&self, other: &I256) -> (r: I256)
        ensures
            r@ == clamp_i256(self@ - other@),
    {
        I256 { raw: U256::from_limbs(saturating_sub_limbs(self.raw.limbs(), other.raw.limbs())) }
    }

    /// The negation of a number that has one.
    pub fn neg(&self) -> (r: I256)
        requires
            self@ != -half_256(),
        ensures
            r@ == -self@,
    {
        I256 { raw: U256::from_limbs(neg_limbs(self.raw.limbs())) }
    }
}

/// The lowest tick that has a price.
pub const MIN_TICK: i32 = -887272;

/// The highest tick that has a price.
pub const MAX_TICK: i32 = 887272;

/// The square root price at [`MIN_TICK`].
pub open spec fn min_sqrt_ratio() -> nat {
    4295128739
}

/// The square root price at [`MAX_TICK`].
pub open spec fn max_sqrt_ratio() -> nat {
    1461446703485210103287273052203988822378723970342nat
}

/// Whether a number can be a square root price: positive and of at most 160
/// bits.
pub open spec fn is_price(n: nat) -> bool {
    0 < n < 0x1_0000_0000_0000_0000_0000_0000_0000_0000_0000_0000
}

/// Whether the price of a tick lies above those of all lower ticks and below
/// those of all higher ones.
pub open spec fn has_rising_price(tick: i32) -> bool {
    &&& forall|t: i32|
        MIN_TICK <= t < tick ==> #[trigger] sqrt_ratio_at_tick(t) < sqrt_ratio_at_tick(tick)
    &&& forall|t: i32|
        tick < t <= MAX_TICK ==> sqrt_ratio_at_tick(tick) < #[trigger] sqrt_ratio_at_tick(t)
}

/// Whether a price lies between two others, whichever of them is higher.
pub open spec fn lies_between(a: nat, b: nat, price: nat) -> bool {
    a <= price <= b || b <= price <= a
}

/// An error of `uniswap_v3_math`, carried as it is.
#[verifier::external_type_specification]
#[verifier::external_body]
pub struct ExUniswapV3MathError(uniswap_v3_math::error::UniswapV3MathError);

/// The square root price, with 96 fractional bits, that
/// `uniswap_v3_math::tick_math::get_sqrt_ratio_at_tick` gives a tick between
/// [`MIN_TICK`] and [`MAX_TICK`].
pub uninterp spec fn sqrt_ratio_at_tick(tick: i32) -> nat;

/// `uniswap_v3_math::tick_math::get_sqrt_ratio_at_tick`: an error exactly
/// outside the tick bounds, and the named price inside, which is at least that
/// of the first tick and at most that of the last. The price rises with the
/// tick: from one tick to the next it grows by a twenty-thousandth, and what
/// rounding adds or takes is less than one in four billion of it. It negates a
/// negative tick, so the smallest `i32` is left out.
#[verifier::external_body]
fn sqrt_ratio_limbs(tick: i32) -> (r: Result<
    [u64; 4],
    uniswap_v3_math::error::UniswapV3MathError,
>)
    requires
        tick != i32::MIN,
    ensures
        r is Ok <==> MIN_TICK <= tick <= MAX_TICK,
        r matches Ok(p) ==> limbs_value(p@) == sqrt_ratio_at_tick(tick),
        r matches Ok(p) ==> min_sqrt_ratio() <= limbs_value(p@) <= max_sqrt_ratio(),
        r matches Ok(p) ==> (tick == MIN_TICK ==> limbs_value(p@) == min_sqrt_ratio()) && (tick
            == MAX_TICK ==> limbs_value(p@) == max_sqrt_ratio()),
        r matches Ok(p) ==> forall|t: i32|
            MIN_TICK <= t < tick ==> #[trigger] sqrt_ratio_at_tick(t) < limbs_value(p@),
        r matches Ok(p) ==> forall|t: i32|
            tick < t <= MAX_TICK ==> limbs_value(p@) < #[trigger] sqrt_ratio_at_tick(t),
{
    Ok(uniswap_v3_math::tick_math::get_sqrt_ratio_at_tick(tick)?.into_limbs())
}

/// The tick that `uniswap_v3_math::tick_math::get_tick_at_sqrt_ratio` gives a
/// square root price, if it gives one.
pub uninterp spec fn tick_at_sqrt_ratio(sqrt_price: nat) -> Option<i32>;

/// `uniswap_v3_math::tick_math::get_tick_at_sqrt_ratio`: the named tick or
/// its error. A price below the first tick's or from the last tick's on is an
/// error.
#[verifier::external_body]
fn tick_of_limbs(sqrt_price: [u64; 4]) -> (r: Result<
    i32,
    uniswap_v3_math::error::UniswapV3MathError,
>)
    ensures
        r is Ok <==> tick_at_sqrt_ratio(limbs_value(sqrt_price@)) is Some,
        r matches Ok(t) ==> tick_at_sqrt_ratio(limbs_value(sqrt_price@)) == Some(t),
        r is Ok ==> min_sqrt_ratio() <= limbs_value(sqrt_price@) < max_sqrt_ratio(),
{
    let p = alloy_primitives::U256::from_limbs(sqrt_price);
    uniswap_v3_math::tick_math::get_tick_at_sqrt_ratio(p)
}

/// The numbers of one step of a swap: the price that it ends at, what goes in,
/// what comes out and the fee.
pub struct SwapStepView {
    pub sqrt_price_next: nat,
    pub amount_in: nat,
    pub amount_out: nat,
    pub fee_amount: nat,
}

/// What `uniswap_v3_math::swap_math::compute_swap_step` computes from the
/// current price, the target price, the liquidity, the amount left (negative
/// for an exact output) and the fee in millionths; nothing on its errors.
pub uninterp spec fn swap_step(
    current: nat,
    target: nat,
    liquidity: u128,
    remaining: int,
    fee_pips: u32,
) -> Option<SwapStepView>;

/// The numbers that the four results of a swap step spell out.
pub open spec fn step_limbs_view(r: ([u64; 4], [u64; 4], [u64; 4], [u64; 4])) -> SwapStepView {
    SwapStepView {
        sqrt_price_next: limbs_value(r.0@),
        amount_in: limbs_value(r.1@),
        amount_out: limbs_value(r.2@),
        fee_amount: limbs_value(r.3@),
    }
}

/// `uniswap_v3_math::swap_math::compute_swap_step`: the named step or its
/// error. Towards an exact output it caps what it pays out at what is left, so
/// it never pays more, and where it stops short of the target it has rounded the
/// price so that it pays out no less either. From one price to another it goes no further than the
/// target. Of an exact input it takes no more than is left, in with the fee, and
/// all of it where it stops short of the target, since what is left over then
/// is the fee. It subtracts the fee from a million and negates a negative
/// amount, so a larger fee and the smallest amount are left out.
#[verifier::external_body]
fn step_limbs(
    current: [u64; 4],
    target: [u64; 4],
    liquidity: u128,
    remaining: [u64; 4],
    fee_pips: u32,
) -> (r: Result<
    ([u64; 4], [u64; 4], [u64; 4], [u64; 4]),
    uniswap_v3_math::error::UniswapV3MathError,
>)
    requires
        fee_pips <= 1_000_000,
        signed_limbs_value(remaining@) != -half_256(),
    ensures
        r is Ok <==> swap_step(
            limbs_value(current@),
            limbs_value(target@),
            liquidity,
            signed_limbs_value(remaining@),
            fee_pips,
        ) is Some,
        r matches Ok(s) ==> swap_step(
            limbs_value(current@),
            limbs_value(target@),
            liquidity,
            signed_limbs_value(remaining@),
            fee_pips,
        ) == Some(step_limbs_view(s)),
        r matches Ok(s) ==> signed_limbs_value(remaining@) < 0 ==> limbs_value(s.2@)
            <= -signed_limbs_value(remaining@),
        r matches Ok(s) ==> is_price(limbs_value(current@)) && is_price(limbs_value(target@))
            && signed_limbs_value(remaining@) < 0 && limbs_value(s.0@) != limbs_value(target@)
            ==> limbs_value(s.2@) == -signed_limbs_value(remaining@),
        r matches Ok(s) ==> is_price(limbs_value(current@)) && is_price(limbs_value(target@))
            ==> lies_between(limbs_value(current@), limbs_value(target@), limbs_value(s.0@)),
        r matches Ok(s) ==> is_price(limbs_value(current@)) && is_price(limbs_value(target@))
            && signed_limbs_value(remaining@) >= 0 ==> limbs_value(s.1@) + limbs_value(s.3@)
            <= signed_limbs_value(remaining@) && (limbs_value(s.0@) != limbs_value(target@)
            ==> limbs_value(s.1@) + limbs_value(s.3@) == signed_limbs_value(remaining@)),
{
    let (price, amount_in, amount_out, fee) = uniswap_v3_math::swap_math::compute_swap_step(
        alloy_primitives::U256::from_limbs(current),
        alloy_primitives::U256::from_limbs(target),
        liquidity,
        alloy_primitives::I256::from_limbs(remaining),
        fee_pips,
    )?;
    Ok((price.into_limbs(), amount_in.into_limbs(), amount_out.into_limbs(), fee.into_limbs()))
}

/// The square root price at a tick: an error exactly outside the tick bounds.
pub fn get_sqrt_ratio_at_tick(tick: i32) -> (r: Result<
    U256,
    uniswap_v3_math::error::UniswapV3MathError,
>)
    requires
        tick != i32::MIN,
    ensures
        r is Ok <==> MIN_TICK <= tick <= MAX_TICK,
        r matches Ok(p) ==> p@ == sqrt_ratio_at_tick(tick),
        r matches Ok(p) ==> min_sqrt_ratio() <= p@ <= max_sqrt_ratio(),
        r matches Ok(p) ==> (tick == MIN_TICK ==> p@ == min_sqrt_ratio()) && (tick == MAX_TICK
            ==> p@ == max_sqrt_ratio()),
        r is Ok ==> has_rising_price(tick),
{
    match sqrt_ratio_limbs(tick) {
        Ok(limbs) => Ok(U256::from_limbs(limbs)),
        Err(e) => Err(e),
    }
}

/// The tick that a square root price lies in, if the price arithmetic gives
/// one.
pub fn get_tick_at_sqrt_ratio(sqrt_price: U256) -> (r: Result<
    i32,
    uniswap_v3_math::error::UniswapV3MathError,
>)
    ensures
        r is Ok <==> tick_at_sqrt_ratio(sqrt_price@) is Some,
        r matches Ok(t) ==> tick_at_sqrt_ratio(sqrt_price@) == Some(t),
        r is Ok ==> min_sqrt_ratio() <= sqrt_price@ < max_sqrt_ratio(),
{
    tick_of_limbs(sqrt_price.limbs())
}

/// What one step of a swap does to the price and the two balances.
#[derive(Clone, Copy, Debug)]
pub struct SwapStep {
    pub sqrt_price_next: U256,
    pub amount_in: U256,
    pub amount_out: U256,
    pub fee_amount: U256,
}

impl View for SwapStep {
    type V = SwapStepView;

    open spec fn view(&self) -> SwapStepView {
        SwapStepView {
            sqrt_price_next: self.sqrt_price_next@,
            amount_in: self.amount_in@,
            amount_out: self.amount_out@,
            fee_amount: self.fee_amount@,
        }
    }
}

/// One step of a swap from `current` towards `target`, if the price
/// arithmetic can take it.
pub fn compute_swap_step(
    current: U256,
    target: U256,
    liquidity: u128,
    remaining: I256,
    fee_pips: u32,
) -> (r: Result<SwapStep, uniswap_v3_math::error::UniswapV3MathError>)
    requires
        fee_pips <= 1_000_000,
        remaining@ != -half_256(),
    ensures
        r is Ok <==> swap_step(current@, target@, liquidity, remaining@, fee_pips) is Some,
        r matches Ok(s) ==> swap_step(current@, target@, liquidity, remaining@, fee_pips) == Some(
            s@,
        ),
        r matches Ok(s) ==> remaining@ < 0 ==> s.amount_out@ <= -remaining@,
        r matches Ok(s) ==> is_price(current@) && is_price(target@) && remaining@ < 0
            && s.sqrt_price_next@ != target@ ==> s.amount_out@ == -remaining@,
        r matches Ok(s) ==> is_price(current@) && is_price(target@) ==> lies_between(
            current@,
            target@,
            s.sqrt_price_next@,
        ),
        r matches Ok(s) ==> is_price(current@) && is_price(target@) && remaining@ >= 0
            ==> s.amount_in@ + s.fee_amount@ <= remaining@ && (s.sqrt_price_next@ != target@
            ==> s.amount_in@ + s.fee_amount@ == remaining@),
{
    match step_limbs(
        current.limbs(),
        target.limbs(),
        liquidity,
        remaining.raw.limbs(),
        fee_pips,
    ) {
        Ok(s) => {
            let step = SwapStep {
                sqrt_price_next: U256::from_limbs(s.0),
                amount_in: U256::from_limbs(s.1),
                amount_out: U256::from_limbs(s.2),
                fee_amount: U256::from_limbs(s.3),
            };
            Ok(step)
        },
        Err(e) => Err(e),
    }
}

} // verus!
