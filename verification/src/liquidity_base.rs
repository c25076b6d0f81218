//! The liquidity of a pool along the price grid.
use std::collections::HashMap;

use vstd::prelude::*;

use crate::arith::{get_tick_at_sqrt_ratio, tick_at_sqrt_ratio, MAX_TICK, MIN_TICK};
use crate::errors::{swap_failure, SwapFailure, SwapSimulationError};
use crate::sqrt_price::SqrtPriceX96;
use crate::tick_bitmap::{
    bitmap_union, bitmap_union_bits, first_set_down, first_set_down_is_nearest, first_set_up,
    first_set_up_is_nearest, flip_tick_if_not_init, merge_words,
    next_initialized_tick_within_one_word, next_tick_lies_in_direction, next_tick_within_word,
    tick_bit, trunc_div, with_tick_bit, with_tick_bit_sets_that_bit, word_union,
    word_union_idempotent,
};
use crate::tick_info::TickInfo;
use crate::words::{I256, U256};

verus! {

broadcast use vstd::std_specs::hash::group_hash_axioms;

/// The liquidity of a pool seen from one price.
#[verifier::ext_equal]
pub struct LiquidityView {
    pub tick_spacing: i32,
    pub tick: i32,
    pub sqrt_price: nat,
    pub liquidity: u128,
    pub ticks: Map<i32, TickInfo>,
    pub bitmap: Map<i16, U256>,
}

/// The liquidity that is added when the price rises across a tick.
pub open spec fn net_at(ticks: Map<i32, TickInfo>, tick: i32) -> i128 {
    if ticks.contains_key(tick) {
        ticks[tick].liquidity_net
    } else {
        0
    }
}

/// The liquidity after crossing `tick`, downwards for `direction`.
pub open spec fn liquidity_across(view: LiquidityView, tick: i32, direction: bool) -> int {
    if direction {
        view.liquidity - net_at(view.ticks, tick)
    } else {
        view.liquidity + net_at(view.ticks, tick)
    }
}

/// The point after one step of a swap that left the price at `sqrt_price`.
/// A step that reached the next tick crosses it, one that moved the price
/// without reaching it puts the tick where the price now lies.
pub open spec fn point_after_step(
    view: LiquidityView,
    sqrt_price: nat,
    direction: bool,
    reached: bool,
    moved: bool,
) -> Result<LiquidityView, SwapFailure> {
    if view.tick_spacing <= 0 {
        Err(SwapFailure::InvalidTick)
    } else if reached {
        let next = next_tick_within_word(
            view.bitmap,
            view.tick as int,
            view.tick_spacing as int,
            direction,
        );
        let liquidity = if next.1 {
            liquidity_across(view, next.0, direction)
        } else {
            view.liquidity as int
        };
        if 0 <= liquidity <= u128::MAX {
            Ok(
                LiquidityView {
                    tick: if direction {
                        (next.0 - 1) as i32
                    } else {
                        next.0
                    },
                    liquidity: liquidity as u128,
                    ..view
                },
            )
        } else {
            Err(SwapFailure::LiquidityUnderflow)
        }
    } else if moved {
        match tick_at_sqrt_ratio(sqrt_price) {
            Some(tick) => Ok(LiquidityView { tick, ..view }),
            None => Err(SwapFailure::Math),
        }
    } else {
        Ok(view)
    }
}

/// Adds a signed amount to a 128-bit one, if the sum fits.
pub fn add_signed(liquidity: u128, net: i128) -> (r: Option<u128>)
    ensures
        0 <= liquidity + net <= u128::MAX ==> r == Some((liquidity + net) as u128),
        !(0 <= liquidity + net <= u128::MAX) ==> r is None,
{
    if net >= 0 {
        liquidity.checked_add(net as u128)
    } else {
        let less_one: u128 = (-(net + 1)) as u128;
        if liquidity > less_one {
            Some(liquidity - less_one - 1)
        } else {
            None
        }
    }
}

/// Subtracts a signed amount from a 128-bit one, if the difference fits.
pub fn sub_signed(liquidity: u128, net: i128) -> (r: Option<u128>)
    ensures
        0 <= liquidity - net <= u128::MAX ==> r == Some((liquidity - net) as u128),
        !(0 <= liquidity - net <= u128::MAX) ==> r is None,
{
    if net >= 0 {
        if liquidity >= net as u128 {
            Some(liquidity - net as u128)
        } else {
            None
        }
    } else {
        let less_one: u128 = (-(net + 1)) as u128;
        if liquidity < u128::MAX - less_one {
            Some(liquidity + less_one + 1)
        } else {
            None
        }
    }
}

/// A pool's liquidity from where its price stands, with the ticks around.
#[derive(Clone, Copy, Debug)]
pub struct LiquidityAtPoint<'a> {
    pub tick_spacing: i32,
    pub current_tick: i32,
    pub current_sqrt_price: SqrtPriceX96,
    pub current_liquidity: u128,
    pub initialized_ticks: &'a HashMap<i32, TickInfo>,
    pub tick_bitmap: &'a HashMap<i16, U256>,
}

impl<'a> View for LiquidityAtPoint<'a> {
    type V = LiquidityView;

    open spec fn view(&self) -> LiquidityView {
        LiquidityView {
            tick_spacing: self.tick_spacing,
            tick: self.current_tick,
            sqrt_price: self.current_sqrt_price@,
            liquidity: self.current_liquidity,
            ticks: self.initialized_ticks@,
            bitmap: self.tick_bitmap@,
        }
    }
}

impl<'a> LiquidityAtPoint<'a> {
    /// The next tick in the direction of a swap within one word of the
    /// bitmap, the liquidity on the way to it, and whether it is initialized.
    pub fn get_to_next_initialized_tick_within_one_word(&self, direction: bool) -> (r: Result<
        (i32, u128, bool),
        SwapSimulationError,
    >)
        ensures
            r is Ok <==> self.tick_spacing > 0,
            r matches Err(e) ==> swap_failure(e) == SwapFailure::InvalidTick,
            r matches Ok(n) ==> (n.0, n.2) == next_tick_within_word(
                self@.bitmap,
                self@.tick as int,
                self@.tick_spacing as int,
                direction,
            ) && n.1 == self@.liquidity && MIN_TICK <= n.0 <= MAX_TICK,
    {
        if self.tick_spacing <= 0 {
            return Err(SwapSimulationError::InvalidTick);
        }
        let next: (i32, bool) = next_initialized_tick_within_one_word(
            self.tick_bitmap,
            self.current_tick,
            self.tick_spacing,
            direction,
        );
        Ok((next.0, self.current_liquidity, next.1))
    }

    /// Moves on after one step of a swap. On an error the point stays.
    pub fn move_to_next_tick(
        &mut self,
        sqrt_price: U256,
        direction: bool,
        reached: bool,
        moved: bool,
    ) -> (r: Result<(), SwapSimulationError>)
        ensures
            match point_after_step(old(self)@, sqrt_price@, direction, reached, moved) {
                Ok(after) => r is Ok && final(self)@ == after,
                Err(failure) => r matches Err(e) && swap_failure(e) == failure && *final(self)
                    == *old(self),
            },
    {
        let next: (i32, u128, bool) = match self.get_to_next_initialized_tick_within_one_word(
            direction,
        ) {
            Ok(next) => next,
            Err(e) => {
                return Err(e);
            },
        };
        if reached {
            if next.2 {
                let net: i128 = match self.initialized_ticks.get(&next.0) {
                    Some(info) => info.liquidity_net,
                    None => 0,
                };
                let after: Option<u128> = if direction {
                    sub_signed(self.current_liquidity, net)
                } else {
                    add_signed(self.current_liquidity, net)
                };
                match after {
                    Some(liquidity) => {
                        self.current_liquidity = liquidity;
                    },
                    None => {
                        return Err(SwapSimulationError::LiquidityUnderflow);
                    },
                }
            }
            self.current_tick = if direction {
                next.0 - 1
            } else {
                next.0
            };
        } else if moved {
            match get_tick_at_sqrt_ratio(sqrt_price) {
                Ok(tick) => {
                    self.current_tick = tick;
                },
                Err(e) => {
                    return Err(SwapSimulationError::UniswapV3MathError(e));
                },
            }
        }
        Ok(())
    }

    /// Sets the price of the point.
    pub fn set_sqrt_price(&mut self, sqrt_price: U256)
        ensures
            final(self)@ == (LiquidityView { sqrt_price: sqrt_price@, ..old(self)@ }),
    {
        self.current_sqrt_price = SqrtPriceX96::from_u256(sqrt_price);
    }
}

/// The liquidity of a pool: where its price stands and the ticks around.
#[derive(Debug)]
pub struct BaselineLiquidity {
    pub tick_spacing: i32,
    pub start_tick: i32,
    pub start_sqrt_price: SqrtPriceX96,
    pub start_liquidity: u128,
    pub initialized_ticks: HashMap<i32, TickInfo>,
    pub tick_bitmap: HashMap<i16, U256>,
}

impl View for BaselineLiquidity {
    type V = LiquidityView;

    open spec fn view(&self) -> LiquidityView {
        LiquidityView {
            tick_spacing: self.tick_spacing,
            tick: self.start_tick,
            sqrt_price: self.start_sqrt_price@,
            liquidity: self.start_liquidity,
            ticks: self.initialized_ticks@,
            bitmap: self.tick_bitmap@,
        }
    }
}

impl Clone for BaselineLiquidity {
    fn clone(&self) -> (r: BaselineLiquidity)
        ensures
            r@ == self@,
    {
        BaselineLiquidity {
            tick_spacing: self.tick_spacing,
            start_tick: self.start_tick,
            start_sqrt_price: self.start_sqrt_price,
            start_liquidity: self.start_liquidity,
            initialized_ticks: self.initialized_ticks.clone(),
            tick_bitmap: self.tick_bitmap.clone(),
        }
    }
}

/// The ticks after `delta` of liquidity was added from `lower` to `upper`.
pub open spec fn ticks_with_liquidity(
    ticks: Map<i32, TickInfo>,
    lower: i32,
    upper: i32,
    delta: int,
) -> Map<i32, TickInfo> {
    let with_lower = ticks.insert(
        lower,
        TickInfo { liquidity_net: (net_at(ticks, lower) + delta) as i128, initialized: true },
    );
    with_lower.insert(
        upper,
        TickInfo { liquidity_net: (net_at(with_lower, upper) - delta) as i128, initialized: true },
    )
}

/// Whether `delta` of liquidity can be added from `lower` to `upper`: every
/// number that it changes still fits its type.
pub open spec fn liquidity_fits(view: LiquidityView, lower: i32, upper: i32, delta: int) -> bool {
    let with_lower = view.ticks.insert(
        lower,
        TickInfo { liquidity_net: (net_at(view.ticks, lower) + delta) as i128, initialized: true },
    );
    &&& view.tick_spacing > 0
    &&& i128::MIN <= delta <= i128::MAX
    &&& i128::MIN <= net_at(view.ticks, lower) + delta <= i128::MAX
    &&& i128::MIN <= net_at(with_lower, upper) - delta <= i128::MAX
    &&& lower <= view.tick < upper ==> 0 <= view.liquidity + delta <= u128::MAX
}

/// The liquidity after `delta` was added from `lower` to `upper`.
pub open spec fn with_liquidity(
    view: LiquidityView,
    lower: i32,
    upper: i32,
    delta: int,
) -> LiquidityView {
    let spacing = view.tick_spacing as int;
    LiquidityView {
        liquidity: if lower <= view.tick < upper {
            (view.liquidity + delta) as u128
        } else {
            view.liquidity
        },
        ticks: ticks_with_liquidity(view.ticks, lower, upper, delta),
        bitmap: with_tick_bit(
            with_tick_bit(view.bitmap, trunc_div(lower as int, spacing)),
            trunc_div(upper as int, spacing),
        ),
        ..view
    }
}

/// Adding liquidity and taking the same amount away again leaves the price,
/// the liquidity in range and the net liquidity of every tick as they were.
pub proof fn inverse_liquidity_restores(view: LiquidityView, lower: i32, upper: i32, delta: int)
    requires
        lower < upper,
        liquidity_fits(view, lower, upper, delta),
        delta != i128::MIN,
    ensures
        ({
            let there = with_liquidity(view, lower, upper, delta);
            let back = with_liquidity(there, lower, upper, -delta);
            &&& liquidity_fits(there, lower, upper, -delta)
            &&& back.tick_spacing == view.tick_spacing
            &&& back.tick == view.tick
            &&& back.sqrt_price == view.sqrt_price
            &&& back.liquidity == view.liquidity
            &&& forall|t: i32| #[trigger] net_at(back.ticks, t) == net_at(view.ticks, t)
        }),
{
}

/// Whether a tick has a place of its own in the bitmap.
pub open spec fn has_place(tick: i32) -> bool {
    -0x80_0000 <= tick < 0x80_0000
}

/// Whether every tick that is known is marked in the bitmap, so that a swap
/// stops at it.
pub open spec fn ticks_are_marked(view: LiquidityView) -> bool {
    &&& view.tick_spacing > 0
    &&& forall|t: i32| #[trigger]
        view.ticks.contains_key(t) ==> has_place(t) && tick_bit(
            view.bitmap,
            trunc_div(t as int, view.tick_spacing as int),
        )
}

/// The compressed form of a tick with a place has a place.
pub proof fn compressed_has_place(tick: int, spacing: int)
    requires
        -0x80_0000 <= tick < 0x80_0000,
        spacing > 0,
    ensures
        -0x80_0000 <= trunc_div(tick, spacing) < 0x80_0000,
{
    let above = if tick < 0 {
        -tick
    } else {
        tick
    };
    vstd::arithmetic::div_mod::lemma_div_is_ordered_by_denominator(above, 1, spacing);
    assert(above / 1 == above);
    assert(above / spacing >= 0) by (nonlinear_arith)
        requires
            above >= 0,
            spacing > 0,
    ;
}

/// The nets of the ticks above `from`, up to `to`, added up.
pub open spec fn nets_between(ticks: Map<i32, TickInfo>, from: int, to: int) -> int
    decreases to - from,
{
    if to <= from {
        0
    } else {
        nets_between(ticks, from, to - 1) + if ticks.contains_key(to as i32) {
            ticks[to as i32].liquidity_net as int
        } else {
            0
        }
    }
}

/// How much liquidity the price gains on its way from one tick to another: the
/// nets of the ticks on the way up, and what they take back on the way down.
pub open spec fn gained_on_the_way(ticks: Map<i32, TickInfo>, from: int, to: int) -> int {
    nets_between(ticks, from, to) - nets_between(ticks, to, from)
}

/// A way that is gone in two parts adds up.
pub proof fn nets_between_add_up(ticks: Map<i32, TickInfo>, from: int, mid: int, to: int)
    requires
        from <= mid <= to,
    ensures
        nets_between(ticks, from, to) == nets_between(ticks, from, mid) + nets_between(
            ticks,
            mid,
            to,
        ),
    decreases to - mid,
{
    if mid < to {
        nets_between_add_up(ticks, from, mid, to - 1);
    }
}

/// What is gained on the way from one tick to another and on to a third is what
/// is gained on the way from the first to the third.
pub proof fn gained_on_the_way_adds_up(ticks: Map<i32, TickInfo>, a: int, b: int, c: int)
    ensures
        gained_on_the_way(ticks, a, c) == gained_on_the_way(ticks, a, b) + gained_on_the_way(
            ticks,
            b,
            c,
        ),
        gained_on_the_way(ticks, a, b) == -gained_on_the_way(ticks, b, a),
{
    if a <= b && b <= c {
        nets_between_add_up(ticks, a, b, c);
    } else if a <= c && c <= b {
        nets_between_add_up(ticks, a, c, b);
    } else if b <= a && a <= c {
        nets_between_add_up(ticks, b, a, c);
    } else if b <= c && c <= a {
        nets_between_add_up(ticks, b, c, a);
    } else if c <= a && a <= b {
        nets_between_add_up(ticks, c, a, b);
    } else {
        nets_between_add_up(ticks, c, b, a);
    }
}

/// No liquidity is gained where no tick is known.
proof fn nothing_between(ticks: Map<i32, TickInfo>, from: int, to: int)
    requires
        i32::MIN <= from,
        to <= i32::MAX,
        forall|t: i32| from < t <= to ==> !#[trigger] ticks.contains_key(t),
    ensures
        nets_between(ticks, from, to) == 0,
    decreases to - from,
{
    if from < to {
        nothing_between(ticks, from, to - 1);
        assert(!ticks.contains_key(to as i32));
    }
}

/// Whether every known tick can be crossed: it is a multiple of the spacing, has
/// a price and is marked in the bitmap.
pub open spec fn ticks_can_be_crossed(view: LiquidityView) -> bool {
    &&& ticks_are_marked(view)
    &&& forall|t: i32| #[trigger]
        view.ticks.contains_key(t) ==> MIN_TICK <= t <= MAX_TICK && t as int
            % view.tick_spacing as int == 0
}

/// Whether the price can go on from a tick in a direction within the price grid.
pub open spec fn can_go_on(tick: i32, direction: bool) -> bool {
    if direction {
        MIN_TICK <= tick <= MAX_TICK
    } else {
        MIN_TICK - 1 <= tick < MAX_TICK
    }
}

/// The quotient of a multiple does not depend on how it is rounded.
pub proof fn multiple_has_one_quotient(a: int, d: int)
    requires
        d > 0,
        a % d == 0,
    ensures
        trunc_div(a, d) == a / d,
        (a / d) * d == a,
{
    let n = a / d;
    vstd::arithmetic::div_mod::lemma_fundamental_div_mod(a, d);
    assert(a == n * d && -a == (-n) * d) by (nonlinear_arith)
        requires
            a == d * n + 0,
    ;
    if a < 0 {
        assert(n < 0) by (nonlinear_arith)
            requires
                a == n * d,
                a < 0,
                d > 0,
        ;
        vstd::arithmetic::div_mod::lemma_div_by_multiple(-n, d);
    }
}

/// Between a tick and the next one that a swap runs to there is no known tick, and
/// the next one is initialized if it is known.
proof fn next_tick_leaves_none_out(view: LiquidityView, direction: bool)
    requires
        ticks_can_be_crossed(view),
        can_go_on(view.tick, direction),
    ensures
        ({
            let next = next_tick_within_word(
                view.bitmap,
                view.tick as int,
                view.tick_spacing as int,
                direction,
            );
            &&& direction ==> next.0 <= view.tick && forall|t: i32|
                next.0 < t <= view.tick ==> !#[trigger] view.ticks.contains_key(t)
            &&& !direction ==> view.tick < next.0 && forall|t: i32|
                view.tick < t < next.0 ==> !#[trigger] view.ticks.contains_key(t)
            &&& view.ticks.contains_key(next.0) ==> next.1
            &&& MIN_TICK <= next.0 <= MAX_TICK
        }),
{
    let spacing = view.tick_spacing as int;
    let tick = view.tick as int;
    let compressed = tick / spacing;
    let next = next_tick_within_word(view.bitmap, tick, spacing, direction);
    let found = if direction {
        first_set_down(view.bitmap, compressed)
    } else {
        first_set_up(view.bitmap, compressed + 1)
    };
    first_set_down_is_nearest(view.bitmap, compressed);
    first_set_up_is_nearest(view.bitmap, compressed + 1);
    next_tick_lies_in_direction(view.bitmap, tick, spacing, direction);
    vstd::arithmetic::div_mod::lemma_fundamental_div_mod(tick, spacing);
    assert forall|t: i32| #[trigger] view.ticks.contains_key(t) implies ({
        let q = t as int / spacing;
        &&& tick_bit(view.bitmap, q)
        &&& q * spacing == t
        &&& t <= tick <==> q <= compressed
        &&& t < found.0 * spacing <==> q < found.0
        &&& t == found.0 * spacing <==> q == found.0
    }) by {
        multiple_has_one_quotient(t as int, spacing);
        let q = t as int / spacing;
        let f = found.0;
        assert((t <= tick <==> q <= compressed) && (t < f * spacing <==> q < f) && (t == f * spacing
            <==> q == f)) by (nonlinear_arith)
            requires
                t == q * spacing,
                tick == spacing * compressed + tick % spacing,
                0 <= tick % spacing < spacing,
                spacing > 0,
        ;
    }
    assert(found.0 * spacing <= tick || found.0 * spacing > tick);
    if direction {
        assert(found.0 * spacing <= tick) by (nonlinear_arith)
            requires
                found.0 <= compressed,
                tick == spacing * compressed + tick % spacing,
                0 <= tick % spacing,
                spacing > 0,
        ;
    } else {
        assert(found.0 * spacing > tick) by (nonlinear_arith)
            requires
                found.0 >= compressed + 1,
                tick == spacing * compressed + tick % spacing,
                tick % spacing < spacing,
                spacing > 0,
        ;
    }
}

/// A step that reaches its tick changes the liquidity by the nets of the ticks on
/// the way, plus upwards and minus downwards, whatever their signs; the ticks, the
/// bitmap and the spacing stay. So the liquidity at a tick does not depend on how
/// the price came there. Downwards the tick that is reached is left behind.
pub proof fn step_gains_the_nets(
    view: LiquidityView,
    sqrt_price: nat,
    direction: bool,
    moved: bool,
)
    requires
        ticks_can_be_crossed(view),
        can_go_on(view.tick, direction),
        point_after_step(view, sqrt_price, direction, true, moved) is Ok,
    ensures
        ({
            let after = point_after_step(view, sqrt_price, direction, true, moved)->Ok_0;
            &&& after.liquidity == view.liquidity + gained_on_the_way(
                view.ticks,
                view.tick as int,
                after.tick as int,
            )
            &&& direction ==> MIN_TICK - 1 <= after.tick < view.tick
            &&& !direction ==> view.tick < after.tick <= MAX_TICK
            &&& after.ticks == view.ticks
            &&& after.bitmap == view.bitmap
            &&& after.tick_spacing == view.tick_spacing
            &&& after.sqrt_price == view.sqrt_price
        }),
{
    let next = next_tick_within_word(
        view.bitmap,
        view.tick as int,
        view.tick_spacing as int,
        direction,
    );
    next_tick_leaves_none_out(view, direction);
    if direction {
        nothing_between(view.ticks, next.0 as int, view.tick as int);
        nets_between_add_up(view.ticks, next.0 - 1, next.0 as int, view.tick as int);
        assert(nets_between(view.ticks, next.0 - 1, next.0 - 1) == 0);
    } else {
        nothing_between(view.ticks, view.tick as int, next.0 - 1);
    }
}

/// A step that reaches an initialized tick changes the liquidity by exactly the net of
/// that tick, plus upwards and minus downwards, whatever the sign of the net. One that
/// reaches a tick that is not initialized, or that nothing is known of, does not change
/// it. The step fails exactly where the liquidity would not fit its type.
pub proof fn crossing_changes_by_the_net(
    view: LiquidityView,
    sqrt_price: nat,
    direction: bool,
    moved: bool,
)
    requires
        view.tick_spacing > 0,
    ensures
        ({
            let next = next_tick_within_word(
                view.bitmap,
                view.tick as int,
                view.tick_spacing as int,
                direction,
            );
            let net = if next.1 && view.ticks.contains_key(next.0) {
                view.ticks[next.0].liquidity_net as int
            } else {
                0
            };
            let liquidity = if direction {
                view.liquidity - net
            } else {
                view.liquidity + net
            };
            match point_after_step(view, sqrt_price, direction, true, moved) {
                Ok(after) => {
                    &&& after.liquidity == liquidity
                    &&& after.tick == if direction {
                        next.0 - 1
                    } else {
                        next.0 as int
                    }
                    &&& after == (LiquidityView {
                        liquidity: after.liquidity,
                        tick: after.tick,
                        ..view
                    })
                },
                Err(failure) => failure == SwapFailure::LiquidityUnderflow && !(0 <= liquidity
                    <= u128::MAX),
            }
        }),
{
    next_tick_within_bounds(view.bitmap, view.tick as int, view.tick_spacing as int, direction);
}

/// The next tick has a price.
proof fn next_tick_within_bounds(bitmap: Map<i16, U256>, tick: int, spacing: int, lte: bool)
    ensures
        MIN_TICK <= next_tick_within_word(bitmap, tick, spacing, lte).0 <= MAX_TICK,
{
}

/// The nets that a change of liquidity adds to those between two ticks.
proof fn nets_between_with_liquidity(
    ticks: Map<i32, TickInfo>,
    lower: i32,
    upper: i32,
    delta: int,
    from: int,
    to: int,
)
    requires
        lower < upper,
        i32::MIN <= from < lower,
        to <= i32::MAX,
        i128::MIN <= net_at(ticks, lower) + delta <= i128::MAX,
        i128::MIN <= net_at(ticks, upper) - delta <= i128::MAX,
    ensures
        nets_between(ticks_with_liquidity(ticks, lower, upper, delta), from, to) == nets_between(
            ticks,
            from,
            to,
        ) + if lower <= to < upper {
            delta
        } else {
            0
        },
    decreases to - from,
{
    if to > from {
        nets_between_with_liquidity(ticks, lower, upper, delta, from, to - 1);
    }
}

/// A change of liquidity keeps the liquidity in range in step with the ticks: where it
/// was the nets of the ticks up to that of the price, added up from some tick below the
/// range, it is so after the change. So a swap that crosses the ticks of the range finds
/// the liquidity that was added there.
pub proof fn liquidity_stays_the_sum_of_nets(
    view: LiquidityView,
    lower: i32,
    upper: i32,
    delta: int,
    from: i32,
)
    requires
        lower < upper,
        from < lower,
        liquidity_fits(view, lower, upper, delta),
        view.liquidity == nets_between(view.ticks, from as int, view.tick as int),
    ensures
        ({
            let after = with_liquidity(view, lower, upper, delta);
            after.liquidity == nets_between(after.ticks, from as int, after.tick as int)
        }),
{
    nets_between_with_liquidity(
        view.ticks,
        lower,
        upper,
        delta,
        from as int,
        view.tick as int,
    );
}

/// The outcomes of a step that does not reach its tick. One that moves the price
/// keeps the liquidity and puts the tick where the price lies, if it lies anywhere,
/// and fails otherwise; one that does not move it changes nothing. Without a spacing
/// every step fails.
pub proof fn step_outcomes(
    view: LiquidityView,
    sqrt_price: nat,
    direction: bool,
    moved: bool,
)
    ensures
        view.tick_spacing <= 0 ==> forall|reached: bool| #[trigger]
            point_after_step(view, sqrt_price, direction, reached, moved) == Err::<
                LiquidityView,
                SwapFailure,
            >(SwapFailure::InvalidTick),
        view.tick_spacing > 0 ==> point_after_step(view, sqrt_price, direction, false, false) == Ok::<
            LiquidityView,
            SwapFailure,
        >(view),
        view.tick_spacing > 0 ==> match point_after_step(view, sqrt_price, direction, false, true) {
            Ok(after) => tick_at_sqrt_ratio(sqrt_price) == Some(after.tick) && after
                == (LiquidityView { tick: after.tick, ..view }),
            Err(failure) => failure == SwapFailure::Math && tick_at_sqrt_ratio(sqrt_price) is None,
        },
{
}

/// Whether a point follows from another by a step that reaches its tick.
pub open spec fn is_one_step(before: LiquidityView, after: LiquidityView) -> bool {
    exists|sqrt_price: nat, direction: bool, moved: bool|
        can_go_on(before.tick, direction) && #[trigger] point_after_step(
            before,
            sqrt_price,
            direction,
            true,
            moved,
        ) == Ok::<LiquidityView, SwapFailure>(after)
}

/// Whether each of some points follows from the one before by a step that reaches
/// its tick, in whichever directions.
pub open spec fn is_walk(points: Seq<LiquidityView>) -> bool {
    &&& points.len() > 0
    &&& forall|i: int, j: int|
        0 <= i < points.len() && j == i + 1 && j < points.len() ==> is_one_step(
            #[trigger] points[i],
            #[trigger] points[j],
        )
}

/// The liquidity after a walk along the price grid is that at its start and the
/// nets of the ticks between its start and its end, however it went. A walk that
/// comes back to the tick that it started at ends with the liquidity that it
/// started with.
pub proof fn walk_gains_the_nets(points: Seq<LiquidityView>)
    requires
        is_walk(points),
        ticks_can_be_crossed(points[0]),
    ensures
        points.last().liquidity == points[0].liquidity + gained_on_the_way(
            points[0].ticks,
            points[0].tick as int,
            points.last().tick as int,
        ),
        points.last().tick == points[0].tick ==> points.last().liquidity == points[0].liquidity,
        points.last().ticks == points[0].ticks,
        points.last().bitmap == points[0].bitmap,
        points.last().tick_spacing == points[0].tick_spacing,
    decreases points.len(),
{
    if points.len() > 1 {
        let front = points.drop_last();
        let n = points.len() - 1;
        assert(is_walk(front)) by {
            assert forall|i: int, j: int|
                0 <= i < front.len() && j == i + 1 && j < front.len() implies is_one_step(
                #[trigger] front[i],
                #[trigger] front[j],
            ) by {
                assert(front[i] == points[i] && front[j] == points[j]);
            }
        }
        walk_gains_the_nets(front);
        let before = points[n - 1];
        let after = points[n];
        assert(before == front.last() && after == points.last());
        assert(is_one_step(before, after));
        let (sqrt_price, direction, moved) = choose|sqrt_price: nat, direction: bool, moved: bool|
            can_go_on(before.tick, direction) && #[trigger] point_after_step(
                before,
                sqrt_price,
                direction,
                true,
                moved,
            ) == Ok::<LiquidityView, SwapFailure>(after);
        step_gains_the_nets(before, sqrt_price, direction, moved);
        gained_on_the_way_adds_up(
            points[0].ticks,
            points[0].tick as int,
            before.tick as int,
            after.tick as int,
        );
    }
}

/// A tick that was crossed upwards is crossed back by a step downwards, and the
/// liquidity is then what it was.
pub proof fn crossing_back_restores(
    view: LiquidityView,
    sqrt_price: nat,
    moved: bool,
    back_price: nat,
    back_moved: bool,
)
    requires
        ticks_can_be_crossed(view),
        can_go_on(view.tick, false),
        point_after_step(view, sqrt_price, false, true, moved) is Ok,
        view.ticks.contains_key(
            point_after_step(view, sqrt_price, false, true, moved)->Ok_0.tick,
        ),
    ensures
        ({
            let up = point_after_step(view, sqrt_price, false, true, moved)->Ok_0;
            let back = point_after_step(up, back_price, true, true, back_moved);
            &&& back is Ok
            &&& back->Ok_0.liquidity == view.liquidity
            &&& back->Ok_0.tick == up.tick - 1
            &&& up.liquidity - view.liquidity == view.ticks[up.tick].liquidity_net
        }),
{
    let up = point_after_step(view, sqrt_price, false, true, moved)->Ok_0;
    next_tick_leaves_none_out(view, false);
    step_gains_the_nets(view, sqrt_price, false, moved);
    nothing_between(view.ticks, view.tick as int, up.tick - 1);
    let spacing = view.tick_spacing as int;
    multiple_has_one_quotient(up.tick as int, spacing);
    assert(first_set_down(up.bitmap, up.tick as int / spacing) == (up.tick as int / spacing, true));
}

/// Adding liquidity keeps every known tick marked.
pub proof fn liquidity_keeps_ticks_marked(view: LiquidityView, lower: i32, upper: i32, delta: int)
    requires
        ticks_are_marked(view),
        has_place(lower),
        has_place(upper),
    ensures
        ticks_are_marked(with_liquidity(view, lower, upper, delta)),
{
    let spacing = view.tick_spacing as int;
    let after = with_liquidity(view, lower, upper, delta);
    let first = with_tick_bit(view.bitmap, trunc_div(lower as int, spacing));
    compressed_has_place(lower as int, spacing);
    compressed_has_place(upper as int, spacing);
    assert forall|t: i32| #[trigger] after.ticks.contains_key(t) implies has_place(t) && tick_bit(
        after.bitmap,
        trunc_div(t as int, spacing),
    ) by {
        assert(has_place(t)) by {
            if t != lower && t != upper {
                assert(view.ticks.contains_key(t));
            }
        }
        compressed_has_place(t as int, spacing);
        let c = trunc_div(t as int, spacing);
        with_tick_bit_sets_that_bit(view.bitmap, trunc_div(lower as int, spacing), c);
        with_tick_bit_sets_that_bit(first, trunc_div(upper as int, spacing), c);
        if t != lower && t != upper {
            assert(view.ticks.contains_key(t));
        }
    }
}

/// Taking over ticks that are marked keeps every known tick marked.
pub proof fn new_ticks_keep_ticks_marked(
    view: LiquidityView,
    ticks: Map<i32, TickInfo>,
    bitmap: Map<i16, U256>,
)
    requires
        ticks_are_marked(view),
        forall|t: i32| #[trigger]
            ticks.contains_key(t) ==> has_place(t) && tick_bit(
                bitmap,
                trunc_div(t as int, view.tick_spacing as int),
            ),
    ensures
        ticks_are_marked(
            LiquidityView {
                ticks: view.ticks.union_prefer_right(ticks),
                bitmap: bitmap_union(view.bitmap, bitmap),
                ..view
            },
        ),
{
    let all = view.ticks.union_prefer_right(ticks);
    assert forall|t: i32| #[trigger] all.contains_key(t) implies has_place(t) && tick_bit(
        bitmap_union(view.bitmap, bitmap),
        trunc_div(t as int, view.tick_spacing as int),
    ) by {
        bitmap_union_bits(view.bitmap, bitmap, trunc_div(t as int, view.tick_spacing as int));
        if !ticks.contains_key(t) {
            assert(view.ticks.contains_key(t));
        }
    }
}

impl BaselineLiquidity {
    /// The liquidity made of its parts.
    pub fn new(
        tick_spacing: i32,
        start_tick: i32,
        start_sqrt_price: SqrtPriceX96,
        start_liquidity: u128,
        initialized_ticks: HashMap<i32, TickInfo>,
        tick_bitmap: HashMap<i16, U256>,
    ) -> (r: BaselineLiquidity)
        ensures
            r@ == (LiquidityView {
                tick_spacing,
                tick: start_tick,
                sqrt_price: start_sqrt_price@,
                liquidity: start_liquidity,
                ticks: initialized_ticks@,
                bitmap: tick_bitmap@,
            }),
    {
        BaselineLiquidity {
            tick_spacing,
            start_tick,
            start_sqrt_price,
            start_liquidity,
            initialized_ticks,
            tick_bitmap,
        }
    }

    /// The point where the price stands.
    pub fn current(&self) -> (r: LiquidityAtPoint<'_>)
        ensures
            r@ == self@,
    {
        LiquidityAtPoint {
            tick_spacing: self.tick_spacing,
            current_tick: self.start_tick,
            current_sqrt_price: self.start_sqrt_price,
            current_liquidity: self.start_liquidity,
            initialized_ticks: &self.initialized_ticks,
            tick_bitmap: &self.tick_bitmap,
        }
    }

    /// Takes over the price, the tick and the liquidity in range.
    pub fn update_slot0(&mut self, tick: i32, sqrt_price: SqrtPriceX96, liquidity: u128)
        ensures
            final(self)@ == (LiquidityView {
                tick,
                sqrt_price: sqrt_price@,
                liquidity,
                ..old(self)@
            }),
    {
        self.start_tick = tick;
        self.start_sqrt_price = sqrt_price;
        self.start_liquidity = liquidity;
    }

    /// Adds liquidity between two ticks, or takes it away for a negative
    /// delta, and says whether it did. It does so exactly when every number
    /// that changes still fits its type; otherwise nothing changes.
    pub fn update_liquidity(&mut self, tick_lower: i32, tick_upper: i32, liquidity_delta: I256)
        -> (r: bool)
        ensures
            r == liquidity_fits(old(self)@, tick_lower, tick_upper, liquidity_delta@),
            r ==> final(self)@ == with_liquidity(
                old(self)@,
                tick_lower,
                tick_upper,
                liquidity_delta@,
            ),
            !r ==> *final(self) == *old(self),
    {
        if self.tick_spacing <= 0 {
            return false;
        }
        let delta: i128 = match liquidity_delta.to_i128() {
            Some(delta) => delta,
            None => {
                return false;
            },
        };
        let lower_net: i128 = match self.initialized_ticks.get(&tick_lower) {
            Some(info) => info.liquidity_net,
            None => 0,
        };
        let lower_after: i128 = match lower_net.checked_add(delta) {
            Some(net) => net,
            None => {
                return false;
            },
        };
        let upper_net: i128 = if tick_upper == tick_lower {
            lower_after
        } else {
            match self.initialized_ticks.get(&tick_upper) {
                Some(info) => info.liquidity_net,
                None => 0,
            }
        };
        let upper_after: i128 = match upper_net.checked_sub(delta) {
            Some(net) => net,
            None => {
                return false;
            },
        };
        let in_range: bool = tick_lower <= self.start_tick && self.start_tick < tick_upper;
        let liquidity_after: u128 = if in_range {
            match add_signed(self.start_liquidity, delta) {
                Some(liquidity) => liquidity,
                None => {
                    return false;
                },
            }
        } else {
            self.start_liquidity
        };
        self.start_liquidity = liquidity_after;
        self.initialized_ticks.insert(
            tick_lower,
            TickInfo { liquidity_net: lower_after, initialized: true },
        );
        self.initialized_ticks.insert(
            tick_upper,
            TickInfo { liquidity_net: upper_after, initialized: true },
        );
        flip_tick_if_not_init(&mut self.tick_bitmap, tick_lower, self.tick_spacing);
        flip_tick_if_not_init(&mut self.tick_bitmap, tick_upper, self.tick_spacing);
        true
    }

    /// Takes over ticks, in place of those of the same position.
    pub fn extend_ticks(&mut self, ticks: &HashMap<i32, TickInfo>)
        ensures
            final(self)@ == (LiquidityView {
                ticks: old(self)@.ticks.union_prefer_right(ticks@),
                ..old(self)@
            }),
    {
        for entry in it: ticks.iter()
            invariant
                self.tick_spacing == old(self).tick_spacing,
                self.start_tick == old(self).start_tick,
                self.start_sqrt_price@ == old(self).start_sqrt_price@,
                self.start_liquidity == old(self).start_liquidity,
                self.tick_bitmap == old(self).tick_bitmap,
                forall|k: i32| #[trigger]
                    self.initialized_ticks@.contains_key(k) ==> old(
                        self,
                    ).initialized_ticks@.contains_key(k) || ticks@.contains_key(k),
                forall|k: i32| #[trigger]
                    old(self).initialized_ticks@.contains_key(k)
                        ==> self.initialized_ticks@.contains_key(k),
                forall|i: int|
                    0 <= i < it.index() ==> self.initialized_ticks@.contains_key(
                        *(#[trigger] it.seq()[i]).0,
                    ) && self.initialized_ticks@[*it.seq()[i].0] == *it.seq()[i].1,
                forall|k: i32| #[trigger]
                    self.initialized_ticks@.contains_key(k) && !ticks@.contains_key(k)
                        ==> self.initialized_ticks@[k] == old(self).initialized_ticks@[k],
        {
            self.initialized_ticks.insert(*entry.0, *entry.1);
        }
        assert(self.initialized_ticks@ =~= old(self).initialized_ticks@.union_prefer_right(
            ticks@,
        ));
    }

    /// Adds the bits of words to the bitmap.
    pub fn extend_tick_bitmap(&mut self, words: &HashMap<i16, U256>)
        ensures
            final(self)@ == (LiquidityView {
                bitmap: bitmap_union(old(self)@.bitmap, words@),
                ..old(self)@
            }),
    {
        for entry in it: words.iter()
            invariant
                self.tick_spacing == old(self).tick_spacing,
                self.start_tick == old(self).start_tick,
                self.start_sqrt_price@ == old(self).start_sqrt_price@,
                self.start_liquidity == old(self).start_liquidity,
                self.initialized_ticks@ == old(self).initialized_ticks@,
                forall|k: i16| #[trigger]
                    self.tick_bitmap@.contains_key(k) ==> bitmap_union(
                        old(self).tick_bitmap@,
                        words@,
                    ).contains_key(k),
                forall|k: i16| #[trigger]
                    old(self).tick_bitmap@.contains_key(k) ==> self.tick_bitmap@.contains_key(k),
                forall|i: int|
                    0 <= i < it.index() ==> self.tick_bitmap@.contains_key(
                        *(#[trigger] it.seq()[i]).0,
                    ) && self.tick_bitmap@[*it.seq()[i].0] == bitmap_union(
                        old(self).tick_bitmap@,
                        words@,
                    )[*it.seq()[i].0],
                forall|k: i16| #[trigger]
                    self.tick_bitmap@.contains_key(k) ==> self.tick_bitmap@[k] == bitmap_union(
                        old(self).tick_bitmap@,
                        words@,
                    )[k] || (old(self).tick_bitmap@.contains_key(k) && self.tick_bitmap@[k] == old(
                        self,
                    ).tick_bitmap@[k]),
        {
            let ghost pos = *entry.0;
            proof {
                assert(words@.contains_key(pos) && words@[pos] == *entry.1);
                if old(self).tick_bitmap@.contains_key(pos) {
                    word_union_idempotent(old(self).tick_bitmap@[pos], *entry.1);
                }
                assert forall|x: u64| #[trigger] (x | x) == x by {
                    assert(x | x == x) by (bit_vector);
                }
            }
            self.update_tick_bitmap(*entry.0, *entry.1);
        }
        assert(self.tick_bitmap@ =~= bitmap_union(old(self).tick_bitmap@, words@));
    }

    /// Adds the bits of a word to the bitmap.
    pub fn update_tick_bitmap(&mut self, word_pos: i16, word: U256)
        ensures
            final(self)@ == (LiquidityView {
                bitmap: old(self)@.bitmap.insert(
                    word_pos,
                    if old(self)@.bitmap.contains_key(word_pos) {
                        word_union(old(self)@.bitmap[word_pos], word)
                    } else {
                        word
                    },
                ),
                ..old(self)@
            }),
    {
        let merged: U256 = match self.tick_bitmap.get(&word_pos) {
            Some(current) => merge_words(*current, word),
            None => word,
        };
        self.tick_bitmap.insert(word_pos, merged);
    }
}

} // verus!
