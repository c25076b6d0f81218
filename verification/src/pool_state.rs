//! The state of a pool.
use std::collections::HashMap;

use vstd::prelude::*;

use crate::errors::SwapSimulationError;
use crate::liquidity_base::{
    liquidity_fits, with_liquidity, BaselineLiquidity, LiquidityView,
};
use crate::pool_swap::{
    amount_swap, amount_swap_of, can_swap, can_swap_to_price, is_settled, price_swap,
    price_then_amount_gives, price_then_amount_settles_within, swap_gives, swap_outcome,
    swap_price_then_amount, PoolSwap, PoolSwapResult, PoolSwapResultView,
};
use crate::sqrt_price::SqrtPriceX96;
use crate::tick_bitmap::bitmap_union;
use crate::tick_info::TickInfo;
use crate::words::{I256, U256};

verus! {

/// Fee configuration for different pool modes
#[derive(Clone, Copy, Debug, PartialEq, Eq, Structural)]
pub struct FeeConfiguration {
    pub is_bundle_mode: bool,
    /// Stored fee for bundle mode
    pub bundle_fee: u32,
    /// Applied during swaps in unlocked mode
    pub swap_fee: u32,
    /// Applied after swaps in unlocked mode, in millionths
    pub protocol_fee: u32,
}

/// The state of a pool at a block.
#[verifier::ext_equal]
pub struct PoolStateView {
    pub liquidity: LiquidityView,
    pub block: u64,
    pub fee_config: FeeConfiguration,
}

/// The state of a pool at a block.
#[derive(Debug)]
pub struct BaselinePoolState {
    pub liquidity: BaselineLiquidity,
    pub block: u64,
    pub fee_config: FeeConfiguration,
}

impl View for BaselinePoolState {
    type V = PoolStateView;

    open spec fn view(&self) -> PoolStateView {
        PoolStateView {
            liquidity: self.liquidity@,
            block: self.block,
            fee_config: self.fee_config,
        }
    }
}

impl Clone for BaselinePoolState {
    fn clone(&self) -> (r: BaselinePoolState)
        ensures
            r@ == self@,
    {
        BaselinePoolState {
            liquidity: self.liquidity.clone(),
            block: self.block,
            fee_config: self.fee_config,
        }
    }
}

/// The state after a pool took over a price, a tick and the liquidity there.
pub open spec fn with_slot0(
    state: PoolStateView,
    tick: i32,
    sqrt_price: nat,
    liquidity: u128,
) -> PoolStateView {
    PoolStateView {
        liquidity: LiquidityView { tick, sqrt_price, liquidity, ..state.liquidity },
        ..state
    }
}

/// The state after liquidity was added between two ticks; the same state where
/// a number that would change does not fit its type.
pub open spec fn with_liquidity_event(
    state: PoolStateView,
    lower: i32,
    upper: i32,
    delta: int,
) -> PoolStateView {
    if liquidity_fits(state.liquidity, lower, upper, delta) {
        PoolStateView {
            liquidity: with_liquidity(state.liquidity, lower, upper, delta),
            ..state
        }
    } else {
        state
    }
}

/// The state after new fees came into force.
pub open spec fn with_fees(
    state: PoolStateView,
    bundle_fee: u32,
    swap_fee: u32,
    protocol_fee: u32,
) -> PoolStateView {
    PoolStateView {
        fee_config: FeeConfiguration { bundle_fee, swap_fee, protocol_fee, ..state.fee_config },
        ..state
    }
}

/// The state after ticks were taken over, in place of those of the same
/// position, and their bits added to the bitmap.
pub open spec fn with_ticks(
    state: PoolStateView,
    ticks: Map<i32, TickInfo>,
    bitmap: Map<i16, U256>,
) -> PoolStateView {
    PoolStateView {
        liquidity: LiquidityView {
            ticks: state.liquidity.ticks.union_prefer_right(ticks),
            bitmap: bitmap_union(state.liquidity.bitmap, bitmap),
            ..state.liquidity
        },
        ..state
    }
}

impl BaselinePoolState {
    /// The state made of its parts.
    pub fn new(liquidity: BaselineLiquidity, block: u64, fee_config: FeeConfiguration) -> (r:
        BaselinePoolState)
        ensures
            r@ == (PoolStateView { liquidity: liquidity@, block, fee_config }),
    {
        BaselinePoolState { liquidity, block, fee_config }
    }

    /// The block that the state was loaded at.
    pub fn block_number(&self) -> (r: u64)
        ensures
            r == self@.block,
    {
        self.block
    }

    /// The fee of the mode that the pool is in.
    pub fn fee(&self) -> (r: u32)
        ensures
            r == if self@.fee_config.is_bundle_mode {
                self@.fee_config.bundle_fee
            } else {
                self@.fee_config.swap_fee
            },
    {
        if self.fee_config.is_bundle_mode {
            self.fee_config.bundle_fee
        } else {
            self.fee_config.swap_fee
        }
    }

    /// Whether the pool is in bundle mode.
    pub fn is_bundle_mode(&self) -> (r: bool)
        ensures
            r == self@.fee_config.is_bundle_mode,
    {
        self.fee_config.is_bundle_mode
    }

    /// The fee for bundles.
    pub fn bundle_fee(&self) -> (r: u32)
        ensures
            r == self@.fee_config.bundle_fee,
    {
        self.fee_config.bundle_fee
    }

    /// The fee on swaps outside bundles.
    pub fn swap_fee(&self) -> (r: u32)
        ensures
            r == self@.fee_config.swap_fee,
    {
        self.fee_config.swap_fee
    }

    /// The protocol's fee on swaps outside bundles.
    pub fn protocol_fee(&self) -> (r: u32)
        ensures
            r == self@.fee_config.protocol_fee,
    {
        self.fee_config.protocol_fee
    }

    /// All fees.
    pub fn fee_config(&self) -> (r: &FeeConfiguration)
        ensures
            *r == self@.fee_config,
    {
        &self.fee_config
    }

    /// The tick that the price lies in.
    pub fn current_tick(&self) -> (r: i32)
        ensures
            r == self@.liquidity.tick,
    {
        self.liquidity.start_tick
    }

    /// The liquidity in range.
    pub fn current_liquidity(&self) -> (r: u128)
        ensures
            r == self@.liquidity.liquidity,
    {
        self.liquidity.start_liquidity
    }

    /// The price.
    pub fn current_price(&self) -> (r: SqrtPriceX96)
        ensures
            r@ == self@.liquidity.sqrt_price,
    {
        self.liquidity.start_sqrt_price
    }

    /// The distance between ticks that can be initialized.
    pub fn tick_spacing(&self) -> (r: i32)
        ensures
            r == self@.liquidity.tick_spacing,
    {
        self.liquidity.tick_spacing
    }

    /// Takes over the price, the tick and the liquidity in range.
    pub fn update_slot0(&mut self, tick: i32, sqrt_price: SqrtPriceX96, liquidity: u128)
        ensures
            final(self)@ == with_slot0(old(self)@, tick, sqrt_price@, liquidity),
    {
        self.liquidity.update_slot0(tick, sqrt_price, liquidity);
    }

    /// Adds liquidity between two ticks, where everything that changes fits
    /// its type.
    pub fn update_liquidity(&mut self, tick_lower: i32, tick_upper: i32, liquidity_delta: I256)
        ensures
            final(self)@ == with_liquidity_event(
                old(self)@,
                tick_lower,
                tick_upper,
                liquidity_delta@,
            ),
    {
        self.liquidity.update_liquidity(tick_lower, tick_upper, liquidity_delta);
    }

    /// Puts new fees into force. The mode stays.
    pub fn update_fees(&mut self, bundle_fee: u32, swap_fee: u32, protocol_fee: u32)
        ensures
            final(self)@ == with_fees(old(self)@, bundle_fee, swap_fee, protocol_fee),
    {
        self.fee_config.bundle_fee = bundle_fee;
        self.fee_config.swap_fee = swap_fee;
        self.fee_config.protocol_fee = protocol_fee;
    }

    /// Takes over ticks, and adds their bits to the bitmap.
    pub fn update_ticks(
        &mut self,
        ticks: &HashMap<i32, TickInfo>,
        tick_bitmap: &HashMap<i16, U256>,
    )
        ensures
            final(self)@ == with_ticks(old(self)@, ticks@, tick_bitmap@),
    {
        self.liquidity.extend_ticks(ticks);
        self.liquidity.extend_tick_bitmap(tick_bitmap);
    }

    /// A swap that moves nothing.
    pub fn noop(&self) -> (r: PoolSwapResult<'_>)
        ensures
            r@ == (PoolSwapResultView {
                fee_config: self@.fee_config,
                start_price: self@.liquidity.sqrt_price,
                start_tick: self@.liquidity.tick,
                end_price: self@.liquidity.sqrt_price,
                end_tick: self@.liquidity.tick,
                total_d_t0: 0,
                total_d_t1: 0,
                steps: Seq::empty(),
                end_liquidity: self@.liquidity,
                protocol_fee_amount: 0,
                protocol_fee_token: false,
                is_bundle: self@.fee_config.is_bundle_mode,
            }),
    {
        PoolSwapResult {
            fee_config: self.fee_config,
            start_price: self.liquidity.start_sqrt_price,
            start_tick: self.liquidity.start_tick,
            end_price: self.liquidity.start_sqrt_price,
            end_tick: self.liquidity.start_tick,
            total_d_t0: 0,
            total_d_t1: 0,
            steps: Vec::new(),
            end_liquidity: self.liquidity.current(),
            protocol_fee_amount: 0,
            protocol_fee_token: false,
            is_bundle: self.fee_config.is_bundle_mode,
        }
    }

    /// Swaps an amount from the current price on; a negative amount is what
    /// has to come out.
    pub fn swap_current_with_amount(&self, amount: I256, direction: bool) -> (r: Result<
        PoolSwapResult<'_>,
        SwapSimulationError,
    >)
        requires
            can_swap(amount_swap_from(self@, amount@, direction)),
        ensures
            swap_gives(amount_swap_from(self@, amount@, direction), r),
    {
        let swap: PoolSwap<'_> = PoolSwap {
            liquidity: self.liquidity.current(),
            target_price: None,
            target_amount: amount,
            direction,
            fee_config: self.fee_config,
            is_bundle: self.fee_config.is_bundle_mode,
        };
        swap.swap()
    }

    /// [`BaselinePoolState::swap_current_with_amount`], if it settles within a
    /// number of steps.
    pub fn swap_current_with_amount_within(
        &self,
        amount: I256,
        direction: bool,
        max_steps: u64,
    ) -> (r: Option<Result<PoolSwapResult<'_>, SwapSimulationError>>)
        ensures
            r is Some <==> is_settled(
                swap_outcome(amount_swap_from(self@, amount@, direction), max_steps as nat),
            ),
            r matches Some(x) ==> swap_gives(amount_swap_from(self@, amount@, direction), x),
    {
        let swap: PoolSwap<'_> = PoolSwap {
            liquidity: self.liquidity.current(),
            target_price: None,
            target_amount: amount,
            direction,
            fee_config: self.fee_config,
            is_bundle: self.fee_config.is_bundle_mode,
        };
        if swap.settles_within(max_steps) {
            Some(self.swap_current_with_amount(amount, direction))
        } else {
            None
        }
    }

    /// Swap to current price is designed to represent all swap outcomes as an
    /// amount in swap. Because of this, this swap does two swaps to make
    /// sure the values always align perfectly.
    pub fn swap_current_to_price(&self, price_limit: SqrtPriceX96) -> (r: Result<
        PoolSwapResult<'_>,
        SwapSimulationError,
    >)
        requires
            can_swap_to_price(price_swap_from(self@, price_limit@)),
        ensures
            price_then_amount_gives(price_swap_from(self@, price_limit@), r),
    {
        let direction: bool = !self.liquidity.start_sqrt_price.lt(&price_limit);
        swap_price_then_amount(
            self.liquidity.current(),
            price_limit,
            direction,
            self.fee_config,
            self.fee_config.is_bundle_mode,
        )
    }

    /// [`BaselinePoolState::swap_current_to_price`], if each of its swaps
    /// settles within a number of steps.
    pub fn swap_current_to_price_within(&self, price_limit: SqrtPriceX96, max_steps: u64) -> (r:
        Option<Result<PoolSwapResult<'_>, SwapSimulationError>>)
        ensures
            ({
                let swap = price_swap_from(self@, price_limit@);
                let first = swap_outcome(swap, max_steps as nat);
                &&& r is Some <==> is_settled(first) && (first is Finished ==> is_settled(
                    swap_outcome(amount_swap_of(swap, first->Finished_0), max_steps as nat),
                ))
                &&& r matches Some(x) ==> price_then_amount_gives(swap, x)
            }),
    {
        let direction: bool = !self.liquidity.start_sqrt_price.lt(&price_limit);
        if price_then_amount_settles_within(
            self.liquidity.current(),
            price_limit,
            direction,
            self.fee_config,
            self.fee_config.is_bundle_mode,
            max_steps,
        ) {
            Some(self.swap_current_to_price(price_limit))
        } else {
            None
        }
    }

    /// Swaps any amount from the current price to a price.
    pub fn swap_current_to_price_raw(&self, price_limit: SqrtPriceX96) -> (r: Result<
        PoolSwapResult<'_>,
        SwapSimulationError,
    >)
        requires
            can_swap(price_swap_from(self@, price_limit@)),
        ensures
            swap_gives(price_swap_from(self@, price_limit@), r),
    {
        let swap: PoolSwap<'_> = PoolSwap {
            liquidity: self.liquidity.current(),
            target_price: Some(price_limit),
            target_amount: I256::max(),
            direction: !self.liquidity.start_sqrt_price.lt(&price_limit),
            fee_config: self.fee_config,
            is_bundle: self.fee_config.is_bundle_mode,
        };
        assert(swap@ =~= price_swap_from(self@, price_limit@));
        swap.swap()
    }

    /// [`BaselinePoolState::swap_current_to_price_raw`], if it settles within
    /// a number of steps.
    pub fn swap_current_to_price_raw_within(&self, price_limit: SqrtPriceX96, max_steps: u64) -> (r:
        Option<Result<PoolSwapResult<'_>, SwapSimulationError>>)
        ensures
            r is Some <==> is_settled(
                swap_outcome(price_swap_from(self@, price_limit@), max_steps as nat),
            ),
            r matches Some(x) ==> swap_gives(price_swap_from(self@, price_limit@), x),
    {
        let swap: PoolSwap<'_> = PoolSwap {
            liquidity: self.liquidity.current(),
            target_price: Some(price_limit),
            target_amount: I256::max(),
            direction: !self.liquidity.start_sqrt_price.lt(&price_limit),
            fee_config: self.fee_config,
            is_bundle: self.fee_config.is_bundle_mode,
        };
        assert(swap@ =~= price_swap_from(self@, price_limit@));
        if swap.settles_within(max_steps) {
            Some(self.swap_current_to_price_raw(price_limit))
        } else {
            None
        }
    }
}

/// The swap of an amount from the current price of a pool.
pub open spec fn amount_swap_from(
    state: PoolStateView,
    amount: int,
    direction: bool,
) -> crate::pool_swap::PoolSwapView {
    amount_swap(
        state.liquidity,
        amount,
        direction,
        state.fee_config,
        state.fee_config.is_bundle_mode,
    )
}

/// The swap from the current price of a pool to a price: down where the price
/// is not above the current one, and up otherwise.
pub open spec fn price_swap_from(
    state: PoolStateView,
    price_limit: nat,
) -> crate::pool_swap::PoolSwapView {
    price_swap(
        state.liquidity,
        price_limit,
        state.liquidity.sqrt_price >= price_limit,
        state.fee_config,
        state.fee_config.is_bundle_mode,
    )
}

} // verus!
